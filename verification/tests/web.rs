//! The checks of the HTTP interface for everybody.
use wherebus::models::{BusRoute, City, Double, EndpointsView, Terminal};
use wherebus::provider::registry::{available_services, create_provider, CityEntry, ProviderChoice, ServiceEntry};
use wherebus::provider::ProviderError;
use wherebus::web;
use wherebus::web::{lines, nearby, realtime, required, services, station_lines, upstream, Params};

fn double(x: f64) -> Double {
    Double { bits: x.to_bits() }
}

fn params() -> Params {
    Params {
        service: "invalid".into(),
        q: None,
        lat: None,
        lng: None,
        station: None,
        direction: None,
        order: None,
    }
}

fn city(id: &str, name: &str) -> CityEntry {
    CityEntry { id: id.into(), city: City { name: name.into(), province: "省".into() } }
}

fn all() -> Vec<ServiceEntry> {
    available_services(&vec![city("hz", "杭州")], &vec![city("cl", "北京")], true)
}

fn route(name: &str, origin: &str, terminus: &str) -> BusRoute {
    BusRoute {
        id: None,
        name: name.into(),
        direction_id: name.into(),
        start: Terminal::named(origin),
        end: Terminal::named(terminus),
        endpoints: EndpointsView {
            origin: origin.into(),
            origin_alias: None,
            terminus: terminus.into(),
            terminus_alias: None,
        },
        company: None,
    }
}

#[test]
fn invalid_inputs() {
    let mut p = params();
    assert!(p.provider(&all()).is_err());
    assert!(p.coords().is_err());
    p.lat = Some(double(f64::NAN));
    p.lng = Some(double(120.0));
    assert!(p.coords().is_err());
    assert!(required(&Some(" ".into())).is_err());
}

#[test]
fn errors_are_not_empty_successes() {
    let error = upstream::<u32>(Some(Err(ProviderError::Network("test".into())))).err().unwrap();
    assert_eq!(error.status, 502);
}

#[test]
fn slow_sources_are_another_error() {
    let late = upstream::<u32>(None).err().unwrap();
    assert_eq!((late.status, late.message.as_str()), (504, "公交数据源响应超时，请重试"));
    assert_eq!(upstream(Some(Ok(3))).ok(), Some(3));
}

#[test]
fn coordinates_lie_on_the_globe() {
    let mut p = params();
    for (lat, lng, good) in [
        (90.0, 180.0, true),
        (-90.0, -180.0, true),
        (0.0, 0.0, true),
        (90.1, 0.0, false),
        (0.0, -180.5, false),
        (f64::INFINITY, 0.0, false),
    ] {
        p.lat = Some(double(lat));
        p.lng = Some(double(lng));
        assert_eq!(p.coords().is_ok(), good, "{lat} {lng}");
    }
    p.lng = None;
    assert_eq!(p.coords().err().unwrap().message, "请传入有效的 WGS84 经纬度");
}

#[test]
fn names_are_limited_in_bytes() {
    assert_eq!(required(&Some("a".repeat(256))).ok(), Some("a".repeat(256)));
    assert!(required(&Some("a".repeat(257))).is_err());
    assert!(required(&Some("站".repeat(86))).is_err());
    assert!(required(&Some("站".repeat(85))).is_ok());
    assert_eq!(required(&None).err().unwrap().message, "缺少有效的站点或线路参数");
}

#[test]
fn the_simulation_is_not_on_offer() {
    let all = all();
    assert_eq!(all.len(), 3);
    assert_eq!(all[0].provider, "掌上公交");
    assert_eq!(all[1].provider, "车来了");
    let listed: Vec<String> = services(&all).into_iter().map(|e| e.id).collect();
    assert_eq!(listed, vec!["hz", "cl"]);
    let mut p = params();
    p.service = "debug_beijing".into();
    assert_eq!(p.provider(&all).err().unwrap().message, "请选择有效的城市与数据源");
    p.service = "hz".into();
    assert!(p.provider(&all).is_ok());
}

#[test]
fn requests_are_checked_in_order() {
    let all = all();
    let mut p = params();
    assert_eq!(realtime(&p, &all).err().unwrap().message, "请选择有效的城市与数据源");
    p.service = "cl".into();
    assert_eq!(realtime(&p, &all).err().unwrap().message, "order 必须是有效站序");
    p.order = Some(10_001);
    assert!(realtime(&p, &all).is_err());
    p.order = Some(10_000);
    assert_eq!(realtime(&p, &all).err().unwrap().message, "缺少有效的站点或线路参数");
    p.direction = Some("1路:1".into());
    assert_eq!(realtime(&p, &all).ok(), Some(("1路:1".to_string(), 10_000)));
    assert_eq!(web::line(&p, &all).ok(), Some("1路:1".to_string()));
    assert_eq!(nearby(&p, &all).err().unwrap().status, 400);
    p.lat = Some(double(30.0));
    p.lng = Some(double(120.0));
    assert_eq!(nearby(&p, &all).ok().unwrap().lat, double(30.0));
    assert_eq!(station_lines(&p, &all).err().unwrap().message, "缺少有效的站点或线路参数");
    p.station = Some("站".into());
    assert_eq!(station_lines(&p, &all).ok().unwrap().1, "站");
}

#[test]
fn lines_are_found_by_name_or_end() {
    let rows = || vec![route("K155", "东站", "西站"), route("1路", "K站", "k站")];
    let names = |q: Option<&str>| -> Vec<String> {
        lines(rows(), &q.map(|q| q.to_string())).into_iter().map(|r| r.name).collect()
    };
    assert_eq!(names(None).len(), 2);
    assert_eq!(names(Some("  ")).len(), 2);
    assert_eq!(names(Some(" K1 ")), vec!["K155"]);
    assert_eq!(names(Some("西")), vec!["K155"]);
    assert_eq!(names(Some("K")), vec!["K155", "1路"]);
    assert!(names(Some("无")).is_empty());
}

#[test]
fn ids_choose_their_source() {
    let mygolbs = vec![city("hz", "杭州"), city("both", "甲")];
    let chelaile = vec![city("both", "乙")];
    let choice = |id: &str, debug: bool| create_provider(id, &mygolbs, &chelaile, debug);
    assert_eq!(choice("", true), ProviderChoice::Nothing);
    assert_eq!(choice("debug_beijing", true), ProviderChoice::Debug);
    assert_eq!(choice("debug_beijing", false), ProviderChoice::Nothing);
    assert_eq!(choice("both", false), ProviderChoice::Chelaile(0));
    assert_eq!(choice("hz", false), ProviderChoice::Mygolbs(0));
    assert_eq!(
        wherebus::provider::registry::no_provider_error().message(),
        "服务端错误: 未选择数据源"
    );
    assert_eq!(ProviderError::Network("x".into()).message(), "网络错误: x");
    assert_eq!(ProviderError::Parse("x".into()).message(), "解析错误: x");
    assert_eq!(wherebus::api::no_such_interface().message, "接口不存在");
}

#[test]
fn ends_are_searched_as_they_are_written() {
    let rows = || vec![route("k1", "T3航站楼", "西站"), route("2路", "东站", "t3站")];
    let names = |q: &str| -> Vec<String> { lines(rows(), &Some(q.to_string())).into_iter().map(|r| r.name).collect() };
    assert_eq!(names("T3"), vec!["k1"]);
    assert_eq!(names(" t3 "), vec!["2路"]);
    assert_eq!(names("K1"), vec!["k1"]);
}
