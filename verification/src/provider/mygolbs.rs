//! 掌上公交: what its replies say.
//!
//! The replies come as plain values; numbers with a fraction that a reply writes as text are read by
//! whoever fetches it.
use crate::models::{
    no_endpoints, terminal_of, ArrivalDetail, ArrivalEstimate, BusPosition, BusPositionModel, BusRoute, BusRouteModel, City, CityModel,
    CongestionLevel, ContactInfo, ContactInfoModel, CrowdLevel, Double, EndpointsView, EndpointsViewModel, Fare, FareModel, GeoPoint,
    LineDetail, LineDetailModel, LineMeta, LineMetaModel, LineStop, LineStopModel, LineSummary, LineSummaryModel, RealTimeData,
    RealTimeDataModel, RouteSegment, RouteTopology, RouteTopologyModel, RunState, ServiceTime, ServiceTimeModel, Station, StationArrival,
    StationArrivalModel, StationModel, StopStatus, Terminal,
};
use crate::provider::reading::{
    digits_of, either, estimate_minutes, find_number, first_there, law_number_is_read_before_its_unit, minutes_for, name_and_alias, not_empty, number_before,
    number_of_digits, parse_station_name, small, unless_empty,
};
use crate::render::{not_blank, unless_blank};

use crate::text::{
    blank, chars_of, contains, copy, dec, find_char, first_of, has, is_blank, is_digit, last_of, lemma_read_of_dec, lemma_value_of_dec,
    opt_view, read_nat, rfind_char, same, text_of, trim, trimmed,
};
use vstd::prelude::*;

verus! {

/// A city as the source calls it.
#[derive(Debug)]
pub struct MygolbsCity {
    pub api_city_name: String,
    pub api_city_key: String,
    pub city: City,
}

/// What a [`MygolbsCity`] holds.
#[verifier::ext_equal]
pub struct MygolbsCityModel {
    pub api_city_name: Seq<char>,
    pub api_city_key: Seq<char>,
    pub city: CityModel,
}

impl View for MygolbsCity {
    type V = MygolbsCityModel;

    open spec fn view(&self) -> MygolbsCityModel {
        MygolbsCityModel {
            api_city_name: self.api_city_name@,
            api_city_key: self.api_city_key@,
            city: self.city@,
        }
    }
}

impl Clone for MygolbsCity {
    fn clone(&self) -> (r: Self)
        ensures
            r@ == self@,
    {
        let r = MygolbsCity {
            api_city_name: self.api_city_name.clone(),
            api_city_key: self.api_city_key.clone(),
            city: self.city.clone(),
        };
        r
    }
}

/// The source for one city.
#[derive(Debug)]
pub struct MygolbsProvider {
    /// The name that requests carry.
    pub name: String,
    /// The key that requests carry.
    pub key: String,
}

/// What a [`MygolbsProvider`] holds.
#[verifier::ext_equal]
pub struct MygolbsProviderModel {
    pub name: Seq<char>,
    pub key: Seq<char>,
}

impl View for MygolbsProvider {
    type V = MygolbsProviderModel;

    open spec fn view(&self) -> MygolbsProviderModel {
        MygolbsProviderModel {
            name: self.name@,
            key: self.key@,
        }
    }
}

impl Clone for MygolbsProvider {
    fn clone(&self) -> (r: Self)
        ensures
            r@ == self@,
    {
        let r = MygolbsProvider {
            name: self.name.clone(),
            key: self.key.clone(),
        };
        r
    }
}

/// The name and the direction in an id: direction 1 where it names none.
pub open spec fn direction_parts(key: Seq<char>) -> (Seq<char>, Seq<char>) {
    let i = last_of(key, ':');
    if i >= 0 {
        (key.take(i), key.skip(i + 1))
    } else {
        (key, "1"@)
    }
}

impl MygolbsProvider {
    /// The source for a city of that name and key.
    pub fn new(city_name: &str, city_key: &str) -> (r: MygolbsProvider)
        ensures
            r@ == (MygolbsProviderModel { name: city_name@, key: city_key@ }),
    {
        MygolbsProvider { name: copy(city_name), key: copy(city_key) }
    }

    /// The source for a city of its table.
    pub fn from_city(city: &MygolbsCity) -> (r: MygolbsProvider)
        ensures
            r@ == (MygolbsProviderModel { name: city@.api_city_name, key: city@.api_city_key }),
    {
        MygolbsProvider::new(city.api_city_name.as_str(), city.api_city_key.as_str())
    }

    /// The name and the direction in an id.
    pub fn parse_direction_id(key: &str) -> (r: (String, String))
        ensures
            (r.0@, r.1@) == direction_parts(key@),
    {
        let chars = chars_of(key);
        let n: usize = chars.len();
        match rfind_char(&chars, ':') {
            Some(i) => {
                let name = text_of(&chars, 0, i);
                let direction = text_of(&chars, i + 1, n);
                assert(name@ =~= key@.take(i as int));
                assert(direction@ =~= key@.skip(i + 1));
                (name, direction)
            },
            None => (copy(key), copy("1")),
        }
    }
}

/// Whether a line is running, by what the source says of its next vehicle.
pub open spec fn state_of_text(text: Seq<char>) -> RunState {
    let text = trim(text);
    if text.len() == 0 {
        RunState::NoRealtime
    } else if has(text, "非运营"@) || has(text, "未发车"@) || has(text, "等待发车"@) {
        RunState::NotOperating
    } else if has(text, "停运"@) || has(text, "收班"@) {
        RunState::Stopped
    } else {
        RunState::Running
    }
}

/// Whether a line is running, by what the source says of its next vehicle.
pub fn infer_run_state_from_text(text: &str) -> (r: RunState)
    ensures
        r == state_of_text(text@),
{
    let t = trimmed(text);
    let s = t.as_str();
    if s.is_empty() {
        RunState::NoRealtime
    } else if contains(s, "非运营") || contains(s, "未发车") || contains(s, "等待发车") {
        RunState::NotOperating
    } else if contains(s, "停运") || contains(s, "收班") {
        RunState::Stopped
    } else {
        RunState::Running
    }
}

/// Whether a line is running, by the numbers of a reply with live data.
pub open spec fn state_of_numbers(run_state: i32, has_real: i32, plan_time: Option<Seq<char>>) -> RunState {
    if run_state == 1 {
        RunState::Stopped
    } else if has_real == 0 {
        if plan_time is Some && !is_blank(plan_time->0) {
            RunState::NotOperating
        } else {
            RunState::NoRealtime
        }
    } else {
        RunState::Running
    }
}

/// Whether a line is running, by the numbers of a reply with live data.
pub fn infer_realtime_run_state(run_state: i32, has_real: i32, plan_time: &Option<String>) -> (r: RunState)
    ensures
        r == state_of_numbers(run_state, has_real, opt_view(*plan_time)),
{
    if run_state == 1 {
        return RunState::Stopped;
    }
    if has_real == 0 {
        match plan_time {
            Some(time) => if blank(time.as_str()) {
                RunState::NoRealtime
            } else {
                RunState::NotOperating
            },
            None => RunState::NoRealtime,
        }
    } else {
        RunState::Running
    }
}

/// The minutes in the field for the time: 0 for less than one.
pub open spec fn minutes_of_time(neartime: Seq<char>) -> Option<u32> {
    let s = trim(neartime);
    if s.len() == 0 {
        None
    } else if has(s, "小于"@) || has(s, "不到"@) {
        Some(0)
    } else {
        small(read_nat(digits_of(s), u32::MAX as nat))
    }
}

/// The minutes in the field for the time.
pub fn parse_time_field(neartime: &str) -> (r: Option<u32>)
    ensures
        r == minutes_of_time(neartime@),
{
    let t = trimmed(neartime);
    let s = t.as_str();
    if s.is_empty() {
        return None;
    }
    if contains(s, "小于") || contains(s, "不到") {
        return Some(0);
    }
    number_of_digits(s)
}

/// The minutes that the digits of a part make; none for zero.
pub open spec fn minutes_of_part(s: Seq<char>) -> Option<u32> {
    match read_nat(digits_of(s), u32::MAX as nat) {
        Some(n) => if n > 0 {
            Some(n as u32)
        } else {
            None
        },
        None => None,
    }
}

fn extract_minutes_from_part(s: &str) -> (r: Option<u32>)
    ensures
        r == minutes_of_part(s@),
{
    match number_of_digits(s) {
        Some(n) => if n > 0 {
            Some(n)
        } else {
            None
        },
        None => None,
    }
}

/// The minutes in the field for the distance, and the part of it that is a distance: "19分钟/6.2公里"
/// has both, "780米" only a distance, "19分钟" only minutes.
pub open spec fn neardis_parts(text: Seq<char>) -> (Option<u32>, Option<Seq<char>>) {
    let text = trim(text);
    let slash = first_of(text, '/');
    if text.len() == 0 {
        (None, None)
    } else if slash < text.len() {
        (minutes_of_part(text.take(slash)), Some(text.skip(slash + 1)))
    } else if text.contains('分') {
        (minutes_of_part(text), None)
    } else {
        (None, Some(text))
    }
}

/// The minutes in the field for the distance, and the part of it that is a distance.
pub fn parse_neardis(raw: &str) -> (r: (Option<u32>, Option<String>))
    ensures
        (r.0, opt_view(r.1)) == neardis_parts(raw@),
{
    let text = trimmed(raw);
    if text.as_str().is_empty() {
        return (None, None);
    }
    let chars = chars_of(text.as_str());
    let slash: usize = find_char(&chars, '/');
    if slash < chars.len() {
        let left = text_of(&chars, 0, slash);
        let right = text_of(&chars, slash + 1, chars.len());
        assert(left@ =~= text@.take(slash as int));
        assert(right@ =~= text@.skip(slash + 1));
        return (extract_minutes_from_part(left.as_str()), Some(right));
    }
    let at: usize = find_char(&chars, '分');
    if at < chars.len() {
        assert(text@[at as int] == '分');
        return (extract_minutes_from_part(text.as_str()), None);
    }
    (None, Some(text))
}

/// A number that a distance writes, and whether it counts kilometres.
pub open spec fn distance_number_of(part: Seq<char>) -> Option<(Seq<char>, bool)> {
    let text = trim(part);
    if text.len() == 0 {
        None
    } else if ends(text, "km"@) {
        Some((trim(text.take(text.len() - 2)), true))
    } else if ends(text, "公里"@) {
        Some((trim(text.take(text.len() - 2)), true))
    } else if ends(text, "m"@) {
        Some((trim(text.take(text.len() - 1)), false))
    } else if ends(text, "米"@) {
        Some((trim(text.take(text.len() - 1)), false))
    } else {
        Some((text, false))
    }
}

/// `s` ends with `tail`.
pub open spec fn ends(s: Seq<char>, tail: Seq<char>) -> bool {
    tail.len() <= s.len() && s.skip(s.len() - tail.len()) == tail
}

fn ends_with(chars: &Vec<char>, tail: &str) -> (r: bool)
    ensures
        r == ends(chars@, tail@),
        r ==> chars@.len() >= tail@.len(),
{
    let t = chars_of(tail);
    if t.len() > chars.len() {
        return false;
    }
    let from: usize = chars.len() - t.len();
    let last = text_of(chars, from, chars.len());
    assert(last@ =~= chars@.skip(chars@.len() - tail@.len()));
    same(last.as_str(), tail)
}

/// The number that a distance writes, and whether it counts kilometres; what the number is worth is
/// for whoever reads numbers with a fraction.
pub fn distance_number(part: &str) -> (r: Option<(String, bool)>)
    ensures
        match (r, distance_number_of(part@)) {
            (Some((a, b)), Some((x, y))) => a@ == x && b == y,
            (None, None) => true,
            _ => false,
        },
{
    proof {
        reveal_strlit("km");
        reveal_strlit("公里");
        reveal_strlit("m");
        reveal_strlit("米");
    }
    let text = trimmed(part);
    if text.as_str().is_empty() {
        return None;
    }
    let chars = chars_of(text.as_str());
    let n: usize = chars.len();
    if ends_with(&chars, "km") || ends_with(&chars, "公里") {
        let number = text_of(&chars, 0, n - 2);
        assert(number@ =~= text@.take(text@.len() - 2));
        return Some((trimmed(number.as_str()), true));
    }
    if ends_with(&chars, "m") || ends_with(&chars, "米") {
        let number = text_of(&chars, 0, n - 1);
        assert(number@ =~= text@.take(text@.len() - 1));
        return Some((trimmed(number.as_str()), false));
    }
    Some((text, false))
}

/// When the next vehicle comes, by what the source says of it; `distance_m` is what the distance in
/// `neardis` is worth.
pub open spec fn arrival_of(
    neartext: Seq<char>,
    neardis: Seq<char>,
    neartime: Seq<char>,
    nearnum: i32,
    distance_m: Option<u32>,
) -> ArrivalEstimate {
    let text = trim(neartext);
    let stations = if nearnum > 0 {
        Some(nearnum as u32)
    } else {
        small(number_before(text, '站'))
    };
    let minutes = either(either(minutes_of_time(neartime), small(number_before(text, '分'))), neardis_parts(neardis).0);
    if text.len() == 0 {
        ArrivalEstimate::Unknown
    } else if has(text, "即将到站"@) || has(text, "进站中"@) || has(text, "已到站"@) {
        ArrivalEstimate::Arriving
    } else if has(text, "等待发车"@) || nearnum < 0 {
        ArrivalEstimate::NoService
    } else if stations is Some || minutes is Some {
        ArrivalEstimate::Approaching {
            stations_away: match stations {
                Some(n) => n,
                None => 0,
            },
            minutes_away: either(minutes, minutes_for(distance_m)),
            distance_m: distance_m,
        }
    } else {
        ArrivalEstimate::Unknown
    }
}

/// When the next vehicle comes, by what the source says of it.
pub fn parse_arrival(neartext: &str, neardis: &str, neartime: &str, nearnum: i32, distance_m: Option<u32>) -> (r: ArrivalEstimate)
    ensures
        r == arrival_of(neartext@, neardis@, neartime@, nearnum, distance_m),
{
    let t = trimmed(neartext);
    let text = t.as_str();
    if text.is_empty() {
        return ArrivalEstimate::Unknown;
    }
    if contains(text, "即将到站") || contains(text, "进站中") || contains(text, "已到站") {
        return ArrivalEstimate::Arriving;
    }
    if contains(text, "等待发车") || nearnum < 0 {
        return ArrivalEstimate::NoService;
    }
    let stations: Option<u32> = if nearnum > 0 {
        Some(nearnum as u32)
    } else {
        find_number(text, '站')
    };
    let (neardis_minutes, _) = parse_neardis(neardis);
    let minutes: Option<u32> = first_there(
        first_there(parse_time_field(neartime), find_number(text, '分')),
        neardis_minutes,
    );
    if stations.is_some() || minutes.is_some() {
        let away: u32 = match stations {
            Some(n) => n,
            None => 0,
        };
        ArrivalEstimate::Approaching {
            stations_away: away,
            minutes_away: first_there(minutes, estimate_minutes(distance_m)),
            distance_m: distance_m,
        }
    } else {
        ArrivalEstimate::Unknown
    }
}

/// How the traffic flows, by the colour on the map.
pub open spec fn congestion_of(color: Seq<char>) -> CongestionLevel {
    if color == "green"@ || color == "#00ff00"@ || color == "#4caf50"@ {
        CongestionLevel::Smooth
    } else if color == "yellow"@ || color == "orange"@ || color == "#ff9800"@ || color == "#ffeb3b"@ {
        CongestionLevel::Slow
    } else if color == "red"@ || color == "#f44336"@ || color == "#ff0000"@ {
        CongestionLevel::Congested
    } else {
        CongestionLevel::Unknown
    }
}

/// How the traffic flows, by the colour on the map.
pub fn congestion_from_color(color: &str) -> (r: CongestionLevel)
    ensures
        r == congestion_of(color@),
{
    if same(color, "green") || same(color, "#00ff00") || same(color, "#4caf50") {
        CongestionLevel::Smooth
    } else if same(color, "yellow") || same(color, "orange") || same(color, "#ff9800") || same(color, "#ffeb3b") {
        CongestionLevel::Slow
    } else if same(color, "red") || same(color, "#f44336") || same(color, "#ff0000") {
        CongestionLevel::Congested
    } else {
        CongestionLevel::Unknown
    }
}

// ─── replies ───

/// A stop near a position.
#[derive(Debug)]
pub struct RawStation {
    pub name: String,
    pub lat: Double,
    pub lng: Double,
    pub dis: u32,
    pub same_num: u32,
}

/// What a [`RawStation`] holds.
#[verifier::ext_equal]
pub struct RawStationModel {
    pub name: Seq<char>,
    pub lat: Double,
    pub lng: Double,
    pub dis: u32,
    pub same_num: u32,
}

impl View for RawStation {
    type V = RawStationModel;

    open spec fn view(&self) -> RawStationModel {
        RawStationModel {
            name: self.name@,
            lat: self.lat,
            lng: self.lng,
            dis: self.dis,
            same_num: self.same_num,
        }
    }
}

impl RawStation {
    /// What a list of [`RawStation`] holds.
    pub open spec fn models(list: Seq<RawStation>) -> Seq<RawStationModel> {
        list.map_values(|x: RawStation| x@)
    }
}

/// A line that calls at a stop.
#[derive(Debug)]
pub struct RawStationLine {
    pub line_name: String,
    pub neartext: String,
    pub neardis: String,
    pub neartime: String,
    pub nearnum: i32,
    pub direction: String,
    pub station_order: u32,
    /// What the distance in `neardis` is worth.
    pub distance_m: Option<u32>,
}

/// What a [`RawStationLine`] holds.
#[verifier::ext_equal]
pub struct RawStationLineModel {
    pub line_name: Seq<char>,
    pub neartext: Seq<char>,
    pub neardis: Seq<char>,
    pub neartime: Seq<char>,
    pub nearnum: i32,
    pub direction: Seq<char>,
    pub station_order: u32,
    pub distance_m: Option<u32>,
}

impl View for RawStationLine {
    type V = RawStationLineModel;

    open spec fn view(&self) -> RawStationLineModel {
        RawStationLineModel {
            line_name: self.line_name@,
            neartext: self.neartext@,
            neardis: self.neardis@,
            neartime: self.neartime@,
            nearnum: self.nearnum,
            direction: self.direction@,
            station_order: self.station_order,
            distance_m: self.distance_m,
        }
    }
}

impl RawStationLine {
    /// What a list of [`RawStationLine`] holds.
    pub open spec fn models(list: Seq<RawStationLine>) -> Seq<RawStationLineModel> {
        list.map_values(|x: RawStationLine| x@)
    }
}

/// The first and the last departure.
#[derive(Debug)]
pub struct RawHours {
    pub first: String,
    pub last: String,
}

/// What a [`RawHours`] holds.
#[verifier::ext_equal]
pub struct RawHoursModel {
    pub first: Seq<char>,
    pub last: Seq<char>,
}

impl View for RawHours {
    type V = RawHoursModel;

    open spec fn view(&self) -> RawHoursModel {
        RawHoursModel {
            first: self.first@,
            last: self.last@,
        }
    }
}

impl RawHours {
    /// What a list of [`RawHours`] holds.
    pub open spec fn models(list: Seq<RawHours>) -> Seq<RawHoursModel> {
        list.map_values(|x: RawHours| x@)
    }
}

/// A stop of a line.
#[derive(Debug)]
pub struct RawStop {
    pub show_name: String,
    pub station_order: u32,
    pub lat: Double,
    pub lng: Double,
    pub status: StopStatus,
    pub nihe_point_index: u32,
}

/// What a [`RawStop`] holds.
#[verifier::ext_equal]
pub struct RawStopModel {
    pub show_name: Seq<char>,
    pub station_order: u32,
    pub lat: Double,
    pub lng: Double,
    pub status: StopStatus,
    pub nihe_point_index: u32,
}

impl View for RawStop {
    type V = RawStopModel;

    open spec fn view(&self) -> RawStopModel {
        RawStopModel {
            show_name: self.show_name@,
            station_order: self.station_order,
            lat: self.lat,
            lng: self.lng,
            status: self.status,
            nihe_point_index: self.nihe_point_index,
        }
    }
}

impl RawStop {
    /// What a list of [`RawStop`] holds.
    pub open spec fn models(list: Seq<RawStop>) -> Seq<RawStopModel> {
        list.map_values(|x: RawStop| x@)
    }
}

/// A line with its stops.
#[derive(Debug)]
pub struct RawLine {
    pub route_name: String,
    pub direction: String,
    pub first_last: Vec<RawHours>,
    pub data: Vec<RawStop>,
    /// The points of the road; none where a number could not be read.
    pub nihelist: Vec<Option<GeoPoint>>,
    pub comments: String,
}

/// What a [`RawLine`] holds.
#[verifier::ext_equal]
pub struct RawLineModel {
    pub route_name: Seq<char>,
    pub direction: Seq<char>,
    pub first_last: Seq<RawHoursModel>,
    pub data: Seq<RawStopModel>,
    pub nihelist: Seq<Option<GeoPoint>>,
    pub comments: Seq<char>,
}

impl View for RawLine {
    type V = RawLineModel;

    open spec fn view(&self) -> RawLineModel {
        RawLineModel {
            route_name: self.route_name@,
            direction: self.direction@,
            first_last: RawHours::models(self.first_last@),
            data: RawStop::models(self.data@),
            nihelist: self.nihelist@,
            comments: self.comments@,
        }
    }
}

/// The speed on a stretch of road.
#[derive(Debug)]
pub struct RawSpeed {
    /// Kilometres per hour; none where the vehicles stand.
    pub speed: Option<Double>,
    pub co: String,
}

/// What a [`RawSpeed`] holds.
#[verifier::ext_equal]
pub struct RawSpeedModel {
    pub speed: Option<Double>,
    pub co: Seq<char>,
}

impl View for RawSpeed {
    type V = RawSpeedModel;

    open spec fn view(&self) -> RawSpeedModel {
        RawSpeedModel {
            speed: self.speed,
            co: self.co@,
        }
    }
}

impl RawSpeed {
    /// What a list of [`RawSpeed`] holds.
    pub open spec fn models(list: Seq<RawSpeed>) -> Seq<RawSpeedModel> {
        list.map_values(|x: RawSpeed| x@)
    }
}

/// A vehicle.
#[derive(Debug)]
pub struct RawBus {
    pub bus_number: String,
    pub index: u32,
    pub status_type: String,
    pub lat: Option<Double>,
    pub lng: Option<Double>,
    pub angle: Double,
    /// The distance the source gives, in metres.
    pub distance: Double,
    /// The same, rounded to whole metres.
    pub shown_m: i64,
    /// Metres as the crow flies to each stop of the line.
    pub stop_distances_m: Vec<u32>,
    pub station_name: String,
    pub nihe_point_index: i32,
}

/// What a [`RawBus`] holds.
#[verifier::ext_equal]
pub struct RawBusModel {
    pub bus_number: Seq<char>,
    pub index: u32,
    pub status_type: Seq<char>,
    pub lat: Option<Double>,
    pub lng: Option<Double>,
    pub angle: Double,
    pub distance: Double,
    pub shown_m: i64,
    pub stop_distances_m: Seq<u32>,
    pub station_name: Seq<char>,
    pub nihe_point_index: i32,
}

impl View for RawBus {
    type V = RawBusModel;

    open spec fn view(&self) -> RawBusModel {
        RawBusModel {
            bus_number: self.bus_number@,
            index: self.index,
            status_type: self.status_type@,
            lat: self.lat,
            lng: self.lng,
            angle: self.angle,
            distance: self.distance,
            shown_m: self.shown_m,
            stop_distances_m: self.stop_distances_m@,
            station_name: self.station_name@,
            nihe_point_index: self.nihe_point_index,
        }
    }
}

impl RawBus {
    /// What a list of [`RawBus`] holds.
    pub open spec fn models(list: Seq<RawBus>) -> Seq<RawBusModel> {
        list.map_values(|x: RawBus| x@)
    }
}

/// How many vehicles are coming to and leaving a stop.
#[derive(Debug)]
pub struct RawCount {
    pub index: u32,
    pub station_name: String,
    pub arrive: u32,
    pub come: u32,
}

/// What a [`RawCount`] holds.
#[verifier::ext_equal]
pub struct RawCountModel {
    pub index: u32,
    pub station_name: Seq<char>,
    pub arrive: u32,
    pub come: u32,
}

impl View for RawCount {
    type V = RawCountModel;

    open spec fn view(&self) -> RawCountModel {
        RawCountModel {
            index: self.index,
            station_name: self.station_name@,
            arrive: self.arrive,
            come: self.come,
        }
    }
}

impl RawCount {
    /// What a list of [`RawCount`] holds.
    pub open spec fn models(list: Seq<RawCount>) -> Seq<RawCountModel> {
        list.map_values(|x: RawCount| x@)
    }
}

/// An estimate that is tied to no vehicle.
#[derive(Debug, Clone, Copy, PartialEq, Eq, Structural)]
pub struct RawEta {
    pub count: i32,
    /// Minutes, rounded up.
    pub minutes: u32,
    pub distance: u32,
}

/// A reply with live data.
#[derive(Debug)]
pub struct RawRealtime {
    pub run_state: i32,
    pub has_real: i32,
    pub plan_time: Option<String>,
    /// Metres.
    pub dislist: Vec<Double>,
    pub speedlist: Vec<RawSpeed>,
    pub list: Vec<RawBus>,
    pub data: Vec<RawCount>,
    pub rtime_list: Vec<RawEta>,
}

/// What a [`RawRealtime`] holds.
#[verifier::ext_equal]
pub struct RawRealtimeModel {
    pub run_state: i32,
    pub has_real: i32,
    pub plan_time: Option<Seq<char>>,
    pub dislist: Seq<Double>,
    pub speedlist: Seq<RawSpeedModel>,
    pub list: Seq<RawBusModel>,
    pub data: Seq<RawCountModel>,
    pub rtime_list: Seq<RawEta>,
}

impl View for RawRealtime {
    type V = RawRealtimeModel;

    open spec fn view(&self) -> RawRealtimeModel {
        RawRealtimeModel {
            run_state: self.run_state,
            has_real: self.has_real,
            plan_time: opt_view(self.plan_time),
            dislist: self.dislist@,
            speedlist: RawSpeed::models(self.speedlist@),
            list: RawBus::models(self.list@),
            data: RawCount::models(self.data@),
            rtime_list: self.rtime_list@,
        }
    }
}

/// A line in the list of lines.
#[derive(Debug)]
pub struct RawRoute {
    pub line_name: String,
    pub direction: String,
    pub from: String,
    pub to: String,
    pub company: String,
}

/// What a [`RawRoute`] holds.
#[verifier::ext_equal]
pub struct RawRouteModel {
    pub line_name: Seq<char>,
    pub direction: Seq<char>,
    pub from: Seq<char>,
    pub to: Seq<char>,
    pub company: Seq<char>,
}

impl View for RawRoute {
    type V = RawRouteModel;

    open spec fn view(&self) -> RawRouteModel {
        RawRouteModel {
            line_name: self.line_name@,
            direction: self.direction@,
            from: self.from@,
            to: self.to@,
            company: self.company@,
        }
    }
}

impl RawRoute {
    /// What a list of [`RawRoute`] holds.
    pub open spec fn models(list: Seq<RawRoute>) -> Seq<RawRouteModel> {
        list.map_values(|x: RawRoute| x@)
    }
}

/// A stop near a position.
pub open spec fn station_of(s: RawStationModel) -> StationModel {
    let (name, alias) = name_and_alias(s.name);
    StationModel {
        id: None,
        name: name,
        alias: alias,
        lat: s.lat,
        lng: s.lng,
        distance_m: s.dis,
        same_name_count: s.same_num,
    }
}

fn read_station(s: &RawStation) -> (r: Station)
    ensures
        r@ == station_of(s@),
{
    let (name, alias) = parse_station_name(s.name.as_str());
    Station {
        id: None,
        name: name,
        alias: alias,
        lat: s.lat,
        lng: s.lng,
        distance_m: s.dis,
        same_name_count: s.same_num,
    }
}

/// The id of a line in a direction.
pub open spec fn direction_id_of(name: Seq<char>, direction: Seq<char>) -> Seq<char> {
    name + ":"@ + direction
}

fn direction_id(name: &str, direction: &str) -> (r: String)
    ensures
        r@ == direction_id_of(name@, direction@),
{
    let mut r = copy(name);
    r.append(":");
    r.append(direction);
    r
}

/// A line that calls at a stop.
pub open spec fn summary_of(l: RawStationLineModel) -> LineSummaryModel {
    LineSummaryModel {
        id: None,
        name: l.line_name,
        direction_id: direction_id_of(
            l.line_name,
            if l.direction.len() == 0 {
                "1"@
            } else {
                l.direction
            },
        ),
        endpoints: no_endpoints(),
        arrival: arrival_of(l.neartext, l.neardis, l.neartime, l.nearnum, l.distance_m),
        station_order: l.station_order,
        run_state: state_of_text(l.neartext),
    }
}

fn read_summary(l: &RawStationLine) -> (r: LineSummary)
    ensures
        r@ == summary_of(l@),
{
    let code = if l.direction.as_str().is_empty() {
        "1"
    } else {
        l.direction.as_str()
    };
    LineSummary {
        id: None,
        name: l.line_name.clone(),
        direction_id: direction_id(l.line_name.as_str(), code),
        endpoints: EndpointsView::default(),
        arrival: parse_arrival(
            l.neartext.as_str(),
            l.neardis.as_str(),
            l.neartime.as_str(),
            l.nearnum,
            l.distance_m,
        ),
        station_order: l.station_order,
        run_state: infer_run_state_from_text(l.neartext.as_str()),
    }
}

/// A stop of a line.
pub open spec fn stop_of(s: RawStopModel) -> LineStopModel {
    let (name, alias) = name_and_alias(s.show_name);
    LineStopModel {
        id: None,
        name: name,
        alias: alias,
        order: s.station_order,
        lat: s.lat,
        lng: s.lng,
        status: s.status,
        track_index: Some(s.nihe_point_index),
    }
}

fn read_stop(s: &RawStop) -> (r: LineStop)
    ensures
        r@ == stop_of(s@),
{
    let (name, alias) = parse_station_name(s.show_name.as_str());
    LineStop {
        id: None,
        name: name,
        alias: alias,
        order: s.station_order,
        lat: s.lat,
        lng: s.lng,
        status: s.status,
        track_index: Some(s.nihe_point_index),
    }
}

/// A vehicle.
pub open spec fn bus_of(b: RawBusModel) -> BusPositionModel {
    BusPositionModel {
        bus_id: b.bus_number,
        station_index: b.index,
        is_arriving: b.status_type == "0"@,
        lat: b.lat,
        lng: b.lng,
        angle: Some(b.angle),
        distance_to_station: Some(b.distance),
        distance_shown_m: Some(b.shown_m),
        stop_distances_m: b.stop_distances_m,
        travel_time_secs: None,
        station_name: unless_empty(b.station_name),
        crowd_status: CrowdLevel::Unknown,
        track_segment_index: Some(b.nihe_point_index),
        state_description: None,
    }
}

fn read_bus(b: &RawBus) -> (r: BusPosition)
    ensures
        r@ == bus_of(b@),
{
    let r = BusPosition {
        bus_id: b.bus_number.clone(),
        station_index: b.index,
        is_arriving: same(b.status_type.as_str(), "0"),
        lat: b.lat,
        lng: b.lng,
        angle: Some(b.angle),
        distance_to_station: Some(b.distance),
        distance_shown_m: Some(b.shown_m),
        stop_distances_m: b.stop_distances_m.clone(),
        travel_time_secs: None,
        station_name: not_empty(b.station_name.as_str()),
        crowd_status: CrowdLevel::Unknown,
        track_segment_index: Some(b.nihe_point_index),
        state_description: None,
    };
    assert(r.stop_distances_m@ =~= b.stop_distances_m@);
    r
}

/// How many vehicles are coming to and leaving a stop.
pub open spec fn count_of(s: RawCountModel) -> StationArrivalModel {
    StationArrivalModel {
        station_index: s.index,
        station_name: unless_empty(s.station_name),
        arriving_count: s.arrive,
        leaving_count: s.come,
    }
}

fn read_count(s: &RawCount) -> (r: StationArrival)
    ensures
        r@ == count_of(s@),
{
    StationArrival {
        station_index: s.index,
        station_name: not_empty(s.station_name.as_str()),
        arriving_count: s.arrive,
        leaving_count: s.come,
    }
}

/// A line in the list of lines.
pub open spec fn route_of(l: RawRouteModel) -> BusRouteModel {
    let (origin, origin_alias) = name_and_alias(l.from);
    let (terminus, terminus_alias) = name_and_alias(l.to);
    BusRouteModel {
        id: None,
        name: l.line_name,
        direction_id: direction_id_of(l.line_name, l.direction),
        start: terminal_of(l.from),
        end: terminal_of(l.to),
        endpoints: EndpointsViewModel {
            origin: origin,
            origin_alias: origin_alias,
            terminus: terminus,
            terminus_alias: terminus_alias,
        },
        company: unless_empty(l.company),
    }
}

fn read_route(l: &RawRoute) -> (r: BusRoute)
    ensures
        r@ == route_of(l@),
{
    let (origin, origin_alias) = parse_station_name(l.from.as_str());
    let (terminus, terminus_alias) = parse_station_name(l.to.as_str());
    BusRoute {
        id: None,
        name: l.line_name.clone(),
        direction_id: direction_id(l.line_name.as_str(), l.direction.as_str()),
        start: Terminal::named(l.from.as_str()),
        end: Terminal::named(l.to.as_str()),
        endpoints: EndpointsView {
            origin: origin,
            origin_alias: origin_alias,
            terminus: terminus,
            terminus_alias: terminus_alias,
        },
        company: not_empty(l.company.as_str()),
    }
}

/// The stops near a position.
pub open spec fn stations_of(list: Seq<RawStationModel>) -> Seq<StationModel> {
    list.map_values(|x: RawStationModel| station_of(x))
}

fn read_stations(list: &Vec<RawStation>) -> (r: Vec<Station>)
    ensures
        Station::models(r@) == stations_of(RawStation::models(list@)),
{
    let ghost wanted = stations_of(RawStation::models(list@));
    let mut r: Vec<Station> = Vec::new();
    let mut i: usize = 0;
    assert(Station::models(r@) =~= wanted.take(0));
    while i < list.len()
        invariant
            i <= list@.len(),
            wanted == stations_of(RawStation::models(list@)),
            Station::models(r@) == wanted.take(i as int),
        decreases list.len() - i,
    {
        let ghost had = Station::models(r@);
        assert(RawStation::models(list@)[i as int] == list@[i as int]@);
        let item = read_station(&list[i]);
        assert(item@ == wanted[i as int]);
        r.push(item);
        assert(Station::models(r@) =~= had.push(wanted[i as int]));
        assert(wanted.take(i + 1) =~= wanted.take(i as int).push(wanted[i as int]));
        i += 1;
    }
    assert(wanted.take(i as int) =~= wanted);
    r
}

/// The lines that call at a stop.
pub open spec fn summaries_of(list: Seq<RawStationLineModel>) -> Seq<LineSummaryModel> {
    list.map_values(|x: RawStationLineModel| summary_of(x))
}

fn read_summaries(list: &Vec<RawStationLine>) -> (r: Vec<LineSummary>)
    ensures
        LineSummary::models(r@) == summaries_of(RawStationLine::models(list@)),
{
    let ghost wanted = summaries_of(RawStationLine::models(list@));
    let mut r: Vec<LineSummary> = Vec::new();
    let mut i: usize = 0;
    assert(LineSummary::models(r@) =~= wanted.take(0));
    while i < list.len()
        invariant
            i <= list@.len(),
            wanted == summaries_of(RawStationLine::models(list@)),
            LineSummary::models(r@) == wanted.take(i as int),
        decreases list.len() - i,
    {
        let ghost had = LineSummary::models(r@);
        assert(RawStationLine::models(list@)[i as int] == list@[i as int]@);
        let item = read_summary(&list[i]);
        assert(item@ == wanted[i as int]);
        r.push(item);
        assert(LineSummary::models(r@) =~= had.push(wanted[i as int]));
        assert(wanted.take(i + 1) =~= wanted.take(i as int).push(wanted[i as int]));
        i += 1;
    }
    assert(wanted.take(i as int) =~= wanted);
    r
}

/// The stops of a line.
pub open spec fn stops_of(list: Seq<RawStopModel>) -> Seq<LineStopModel> {
    list.map_values(|x: RawStopModel| stop_of(x))
}

fn read_stops(list: &Vec<RawStop>) -> (r: Vec<LineStop>)
    ensures
        LineStop::models(r@) == stops_of(RawStop::models(list@)),
{
    let ghost wanted = stops_of(RawStop::models(list@));
    let mut r: Vec<LineStop> = Vec::new();
    let mut i: usize = 0;
    assert(LineStop::models(r@) =~= wanted.take(0));
    while i < list.len()
        invariant
            i <= list@.len(),
            wanted == stops_of(RawStop::models(list@)),
            LineStop::models(r@) == wanted.take(i as int),
        decreases list.len() - i,
    {
        let ghost had = LineStop::models(r@);
        assert(RawStop::models(list@)[i as int] == list@[i as int]@);
        let item = read_stop(&list[i]);
        assert(item@ == wanted[i as int]);
        r.push(item);
        assert(LineStop::models(r@) =~= had.push(wanted[i as int]));
        assert(wanted.take(i + 1) =~= wanted.take(i as int).push(wanted[i as int]));
        i += 1;
    }
    assert(wanted.take(i as int) =~= wanted);
    r
}

/// The vehicles of a line.
pub open spec fn buses_of(list: Seq<RawBusModel>) -> Seq<BusPositionModel> {
    list.map_values(|x: RawBusModel| bus_of(x))
}

fn read_buses(list: &Vec<RawBus>) -> (r: Vec<BusPosition>)
    ensures
        BusPosition::models(r@) == buses_of(RawBus::models(list@)),
{
    let ghost wanted = buses_of(RawBus::models(list@));
    let mut r: Vec<BusPosition> = Vec::new();
    let mut i: usize = 0;
    assert(BusPosition::models(r@) =~= wanted.take(0));
    while i < list.len()
        invariant
            i <= list@.len(),
            wanted == buses_of(RawBus::models(list@)),
            BusPosition::models(r@) == wanted.take(i as int),
        decreases list.len() - i,
    {
        let ghost had = BusPosition::models(r@);
        assert(RawBus::models(list@)[i as int] == list@[i as int]@);
        let item = read_bus(&list[i]);
        assert(item@ == wanted[i as int]);
        r.push(item);
        assert(BusPosition::models(r@) =~= had.push(wanted[i as int]));
        assert(wanted.take(i + 1) =~= wanted.take(i as int).push(wanted[i as int]));
        i += 1;
    }
    assert(wanted.take(i as int) =~= wanted);
    r
}

/// The vehicles at the stops of a line.
pub open spec fn counts_of(list: Seq<RawCountModel>) -> Seq<StationArrivalModel> {
    list.map_values(|x: RawCountModel| count_of(x))
}

fn read_counts(list: &Vec<RawCount>) -> (r: Vec<StationArrival>)
    ensures
        StationArrival::models(r@) == counts_of(RawCount::models(list@)),
{
    let ghost wanted = counts_of(RawCount::models(list@));
    let mut r: Vec<StationArrival> = Vec::new();
    let mut i: usize = 0;
    assert(StationArrival::models(r@) =~= wanted.take(0));
    while i < list.len()
        invariant
            i <= list@.len(),
            wanted == counts_of(RawCount::models(list@)),
            StationArrival::models(r@) == wanted.take(i as int),
        decreases list.len() - i,
    {
        let ghost had = StationArrival::models(r@);
        assert(RawCount::models(list@)[i as int] == list@[i as int]@);
        let item = read_count(&list[i]);
        assert(item@ == wanted[i as int]);
        r.push(item);
        assert(StationArrival::models(r@) =~= had.push(wanted[i as int]));
        assert(wanted.take(i + 1) =~= wanted.take(i as int).push(wanted[i as int]));
        i += 1;
    }
    assert(wanted.take(i as int) =~= wanted);
    r
}

/// The lines of a city.
pub open spec fn routes_of(list: Seq<RawRouteModel>) -> Seq<BusRouteModel> {
    list.map_values(|x: RawRouteModel| route_of(x))
}

fn read_routes(list: &Vec<RawRoute>) -> (r: Vec<BusRoute>)
    ensures
        BusRoute::models(r@) == routes_of(RawRoute::models(list@)),
{
    let ghost wanted = routes_of(RawRoute::models(list@));
    let mut r: Vec<BusRoute> = Vec::new();
    let mut i: usize = 0;
    assert(BusRoute::models(r@) =~= wanted.take(0));
    while i < list.len()
        invariant
            i <= list@.len(),
            wanted == routes_of(RawRoute::models(list@)),
            BusRoute::models(r@) == wanted.take(i as int),
        decreases list.len() - i,
    {
        let ghost had = BusRoute::models(r@);
        assert(RawRoute::models(list@)[i as int] == list@[i as int]@);
        let item = read_route(&list[i]);
        assert(item@ == wanted[i as int]);
        r.push(item);
        assert(BusRoute::models(r@) =~= had.push(wanted[i as int]));
        assert(wanted.take(i + 1) =~= wanted.take(i as int).push(wanted[i as int]));
        i += 1;
    }
    assert(wanted.take(i as int) =~= wanted);
    r
}

/// The points that could be read.
pub open spec fn points_of(list: Seq<Option<GeoPoint>>) -> Seq<GeoPoint>
    decreases list.len(),
{
    if list.len() == 0 {
        Seq::empty()
    } else {
        match list.last() {
            Some(p) => points_of(list.drop_last()).push(p),
            None => points_of(list.drop_last()),
        }
    }
}

fn read_points(list: &Vec<Option<GeoPoint>>) -> (r: Vec<GeoPoint>)
    ensures
        r@ == points_of(list@),
{
    let mut r: Vec<GeoPoint> = Vec::new();
    let mut i: usize = 0;
    assert(list@.take(0) =~= Seq::<Option<GeoPoint>>::empty());
    while i < list.len()
        invariant
            i <= list@.len(),
            r@ == points_of(list@.take(i as int)),
        decreases list.len() - i,
    {
        assert(list@.take(i + 1).drop_last() =~= list@.take(i as int));
        match list[i] {
            Some(p) => {
                r.push(p);
            },
            None => {},
        }
        i += 1;
    }
    assert(list@.take(i as int) =~= list@);
    r
}

/// The stretches of road: as many as there are both distances and speeds.
pub open spec fn segments_of(distances: Seq<Double>, speeds: Seq<RawSpeedModel>) -> Seq<RouteSegment> {
    Seq::new(
        if distances.len() < speeds.len() {
            distances.len()
        } else {
            speeds.len()
        },
        |i: int|
            RouteSegment {
                distance: Some(distances[i]),
                speed: speeds[i].speed,
                congestion: congestion_of(speeds[i].co),
            },
    )
}

fn read_segments(distances: &Vec<Double>, speeds: &Vec<RawSpeed>) -> (r: Vec<RouteSegment>)
    ensures
        r@ == segments_of(distances@, RawSpeed::models(speeds@)),
{
    let ghost list = RawSpeed::models(speeds@);
    let mut r: Vec<RouteSegment> = Vec::new();
    let mut i: usize = 0;
    while i < distances.len() && i < speeds.len()
        invariant
            i <= distances@.len(),
            i <= speeds@.len(),
            list == RawSpeed::models(speeds@),
            r@.len() == i,
            forall|k: int| 0 <= k < i ==> #[trigger] r@[k] == segments_of(distances@, list)[k],
        decreases distances.len() - i,
    {
        assert(list[i as int] == speeds@[i as int]@);
        r.push(
            RouteSegment {
                distance: Some(distances[i]),
                speed: speeds[i].speed,
                congestion: congestion_from_color(speeds[i].co.as_str()),
            },
        );
        i += 1;
    }
    assert(r@ =~= segments_of(distances@, list));
    r
}

/// The estimates that are tied to no vehicle; a negative count is none.
pub open spec fn etas_of(list: Seq<RawEta>) -> Seq<ArrivalDetail>
    decreases list.len(),
{
    if list.len() == 0 {
        Seq::empty()
    } else if list.last().count >= 0 {
        etas_of(list.drop_last()).push(
            ArrivalDetail {
                stations_away: list.last().count as u32,
                minutes_away: list.last().minutes,
                distance_m: list.last().distance,
            },
        )
    } else {
        etas_of(list.drop_last())
    }
}

fn read_etas(list: &Vec<RawEta>) -> (r: Vec<ArrivalDetail>)
    ensures
        r@ == etas_of(list@),
{
    let mut r: Vec<ArrivalDetail> = Vec::new();
    let mut i: usize = 0;
    assert(list@.take(0) =~= Seq::<RawEta>::empty());
    while i < list.len()
        invariant
            i <= list@.len(),
            r@ == etas_of(list@.take(i as int)),
        decreases list.len() - i,
    {
        assert(list@.take(i + 1).drop_last() =~= list@.take(i as int));
        let e = list[i];
        if e.count >= 0 {
            r.push(
                ArrivalDetail { stations_away: e.count as u32, minutes_away: e.minutes, distance_m: e.distance },
            );
        }
        i += 1;
    }
    assert(list@.take(i as int) =~= list@);
    r
}

/// The other direction of a line, where it has one.
pub open spec fn reverse_of(name: Seq<char>, direction: Seq<char>) -> Option<Seq<char>> {
    if direction == "1"@ {
        Some(direction_id_of(name, "2"@))
    } else if direction == "2"@ {
        Some(direction_id_of(name, "1"@))
    } else {
        None
    }
}

/// The name of the first stop.
pub open spec fn first_name(stops: Seq<RawStopModel>) -> Seq<char> {
    if stops.len() > 0 {
        name_and_alias(stops[0].show_name).0
    } else {
        Seq::empty()
    }
}

/// The name of the last stop.
pub open spec fn last_name(stops: Seq<RawStopModel>) -> Seq<char> {
    if stops.len() > 0 {
        name_and_alias(stops[stops.len() - 1].show_name).0
    } else {
        Seq::empty()
    }
}

/// A time of the timetable.
pub open spec fn service_time(raw: Seq<char>) -> Option<ServiceTimeModel> {
    if is_blank(raw) {
        None
    } else {
        Some(ServiceTimeModel { text: trim(raw) })
    }
}

/// A line with its stops.
pub open spec fn line_of(resp: RawLineModel) -> LineDetailModel {
    LineDetailModel {
        id: None,
        name: resp.route_name,
        direction_id: direction_id_of(resp.route_name, resp.direction),
        reverse_id: reverse_of(resp.route_name, resp.direction),
        topology: RouteTopologyModel {
            start: terminal_of(first_name(resp.data)),
            end: terminal_of(last_name(resp.data)),
            stations: stops_of(resp.data),
            track_points: points_of(resp.nihelist),
        },
        meta: LineMetaModel {
            first_service: if resp.first_last.len() > 0 {
                service_time(resp.first_last[0].first)
            } else {
                None
            },
            last_service: if resp.first_last.len() > 0 {
                service_time(resp.first_last[0].last)
            } else {
                None
            },
            fare: FareModel::Unknown,
            company: None,
            contact: ContactInfoModel::Unknown,
            notes: unless_blank(Some(resp.comments)),
        },
    }
}

/// The live data of a line.
pub open spec fn realtime_of(resp: RawRealtimeModel) -> RealTimeDataModel {
    RealTimeDataModel {
        run_state: state_of_numbers(resp.run_state, resp.has_real, resp.plan_time),
        plan_time: resp.plan_time,
        buses: buses_of(resp.list),
        station_arrivals: counts_of(resp.data),
        segments: segments_of(resp.dislist, resp.speedlist),
        arrival_estimates: etas_of(resp.rtime_list),
    }
}

/// An estimate is one that the source gives, for a vehicle on its way.
pub open spec fn is_given(e: ArrivalDetail, list: Seq<RawEta>) -> bool {
    exists|j: int|
        0 <= j < list.len() && (#[trigger] list[j]).count >= 0 && e.stations_away == list[j].count && e.minutes_away == list[j].minutes
            && e.distance_m == list[j].distance
}

proof fn lemma_eta(list: Seq<RawEta>, k: int) -> (j: int)
    requires
        0 <= k < etas_of(list).len(),
    ensures
        0 <= j < list.len(),
        list[j].count >= 0,
        etas_of(list)[k].stations_away == list[j].count,
        etas_of(list)[k].minutes_away == list[j].minutes,
        etas_of(list)[k].distance_m == list[j].distance,
    decreases list.len(),
{
    let front = list.drop_last();
    if k < etas_of(front).len() {
        let j = lemma_eta(front, k);
        assert(front[j] == list[j]);
        j
    } else {
        list.len() - 1
    }
}

/// Every estimate that the source gives for a vehicle on its way is there.
pub proof fn law_estimates_on_the_way_are_kept(list: Seq<RawEta>, j: int) -> (k: int)
    requires
        0 <= j < list.len(),
        list[j].count >= 0,
    ensures
        0 <= k < etas_of(list).len(),
        etas_of(list)[k].stations_away == list[j].count,
        etas_of(list)[k].minutes_away == list[j].minutes,
        etas_of(list)[k].distance_m == list[j].distance,
    decreases list.len(),
{
    let front = list.drop_last();
    if j < list.len() - 1 {
        law_estimates_on_the_way_are_kept(front, j)
    } else {
        etas_of(list).len() - 1
    }
}

impl MygolbsProvider {
    /// The stops near a position.
    pub fn nearby_stations(data: &Vec<RawStation>) -> (r: Vec<Station>)
        ensures
            Station::models(r@) == stations_of(RawStation::models(data@)),
            r@.len() == data@.len(),
            forall|i: int|
                0 <= i < r@.len() ==> ({
                    let (stop, given) = (#[trigger] r@[i], data@[i]);
                    &&& (stop.name@, opt_view(stop.alias)) == name_and_alias(given.name@)
                    &&& stop.distance_m == given.dis && stop.same_name_count == given.same_num
                    &&& stop.lat == given.lat && stop.lng == given.lng
                }),
    {
        let r = read_stations(data);
        proof {
            assert(Station::models(r@).len() == r@.len());
            assert forall|i: int| 0 <= i < r@.len() implies (#[trigger] r@[i])@ == station_of(data@[i]@) by {
                assert(Station::models(r@)[i] == r@[i]@);
                assert(RawStation::models(data@)[i] == data@[i]@);
            }
        }
        r
    }

    /// The lines that call at a stop.
    pub fn station_lines(data: &Vec<RawStationLine>) -> (r: Vec<LineSummary>)
        ensures
            LineSummary::models(r@) == summaries_of(RawStationLine::models(data@)),
            r@.len() == data@.len(),
            forall|i: int|
                0 <= i < r@.len() ==> ({
                    let (line, given) = (#[trigger] r@[i], data@[i]);
                    &&& line.name@ == given.line_name@ && line.station_order == given.station_order
                    &&& given.direction@.len() > 0 ==> line.direction_id@ == given.line_name@ + ":"@ + given.direction@
                    &&& given.direction@.len() == 0 ==> line.direction_id@ == given.line_name@ + ":"@ + "1"@
                }),
    {
        let r = read_summaries(data);
        proof {
            assert(LineSummary::models(r@).len() == r@.len());
            assert forall|i: int| 0 <= i < r@.len() implies (#[trigger] r@[i])@ == summary_of(data@[i]@) by {
                assert(LineSummary::models(r@)[i] == r@[i]@);
                assert(RawStationLine::models(data@)[i] == data@[i]@);
            }
        }
        r
    }

    /// A line with its stops.
    pub fn line_detail(resp: &RawLine) -> (r: LineDetail)
        ensures
            r@ == line_of(resp@),
            r.name@ == resp.route_name@,
            resp.first_last@.len() > 0 ==> r@.meta.first_service == service_time(resp.first_last@[0].first@) && r@.meta.last_service
                == service_time(resp.first_last@[0].last@),
            resp.data@.len() > 0 ==> r@.topology.start == terminal_of(name_and_alias(resp.data@[0].show_name@).0) && r@.topology.end
                == terminal_of(name_and_alias(resp.data@[resp.data@.len() - 1].show_name@).0),
            resp.direction@ == "1"@ ==> opt_view(r.reverse_id) == Some(resp.route_name@ + ":"@ + "2"@),
            resp.direction@ == "2"@ ==> opt_view(r.reverse_id) == Some(resp.route_name@ + ":"@ + "1"@),
            !is_blank(resp.comments@) ==> opt_view(r.meta.notes) == Some(resp.comments@),
            r.direction_id@ == resp.route_name@ + ":"@ + resp.direction@,
            r.topology.stations@.len() == resp.data@.len(),
            forall|i: int|
                0 <= i < resp.data@.len() ==> ({
                    let (stop, given) = (#[trigger] r.topology.stations@[i], resp.data@[i]);
                    &&& (stop.name@, opt_view(stop.alias)) == name_and_alias(given.show_name@)
                    &&& stop.order == given.station_order && stop.status == given.status
                    &&& stop.lat == given.lat && stop.lng == given.lng
                    &&& stop.track_index == Some(given.nihe_point_index)
                }),
    {
        let ghost stops = RawStop::models(resp.data@);
        assert(stops.len() == resp.data@.len());
        assert(resp@.first_last.len() == resp.first_last@.len());
        let n: usize = resp.data.len();
        let (start, end) = if n > 0 {
            assert(stops[0] == resp.data@[0]@);
            assert(stops[n - 1] == resp.data@[n - 1]@);
            let (first, _) = parse_station_name(resp.data[0].show_name.as_str());
            let (last, _) = parse_station_name(resp.data[n - 1].show_name.as_str());
            (first, last)
        } else {
            (String::new(), String::new())
        };
        let (first_service, last_service) = if resp.first_last.len() > 0 {
            assert(resp@.first_last[0] == resp.first_last@[0]@);
            (
                ServiceTime::parse(resp.first_last[0].first.as_str()),
                ServiceTime::parse(resp.first_last[0].last.as_str()),
            )
        } else {
            (None, None)
        };
        proof {
            reveal_strlit("1");
            reveal_strlit("2");
            assert("1"@[0] == '1' && "2"@[0] == '2');
        }
        let name = resp.route_name.as_str();
        let reverse_id = if same(resp.direction.as_str(), "1") {
            Some(direction_id(name, "2"))
        } else if same(resp.direction.as_str(), "2") {
            Some(direction_id(name, "1"))
        } else {
            None
        };
        let comments = Some(resp.comments.clone());
        let read = read_stops(&resp.data);
        proof {
            assert(LineStop::models(read@).len() == read@.len());
            assert forall|i: int| 0 <= i < read@.len() implies (#[trigger] read@[i])@ == stop_of(resp.data@[i]@) by {
                assert(LineStop::models(read@)[i] == read@[i]@);
                assert(stops[i] == resp.data@[i]@);
            }
        }
        LineDetail {
            id: None,
            name: copy(name),
            direction_id: direction_id(name, resp.direction.as_str()),
            reverse_id: reverse_id,
            topology: RouteTopology {
                start: Terminal::named(start.as_str()),
                end: Terminal::named(end.as_str()),
                stations: read,
                track_points: read_points(&resp.nihelist),
            },
            meta: LineMeta {
                first_service: first_service,
                last_service: last_service,
                fare: Fare::Unknown,
                company: None,
                contact: ContactInfo::Unknown,
                notes: not_blank(&comments),
            },
        }
    }

    /// The live data of a line.
    pub fn realtime(resp: &RawRealtime) -> (r: RealTimeData)
        ensures
            r@ == realtime_of(resp@),
            r.buses@.len() == resp.list@.len(),
            forall|i: int|
                0 <= i < resp.list@.len() ==> ({
                    let (bus, given) = (#[trigger] r.buses@[i], resp.list@[i]);
                    &&& bus.is_arriving <==> given.status_type@ == "0"@
                    &&& bus.bus_id@ == given.bus_number@ && bus.station_index == given.index
                    &&& bus.lat == given.lat && bus.lng == given.lng && bus.angle == Some(given.angle)
                    &&& bus.distance_to_station == Some(given.distance) && bus.distance_shown_m == Some(given.shown_m)
                    &&& bus.stop_distances_m@ == given.stop_distances_m@
                    &&& bus.travel_time_secs is None
                }),
            r.station_arrivals@.len() == resp.data@.len(),
            forall|i: int|
                0 <= i < resp.data@.len() ==> ({
                    let (count, given) = (#[trigger] r.station_arrivals@[i], resp.data@[i]);
                    &&& count.station_index == given.index && count.arriving_count == given.arrive && count.leaving_count == given.come
                }),
            forall|i: int|
                0 <= i < r.segments@.len() ==> (#[trigger] r.segments@[i]).distance == Some(resp.dislist@[i]) && r.segments@[i].speed
                    == resp.speedlist@[i].speed,
            forall|k: int|
                0 <= k < r.arrival_estimates@.len() ==> is_given(#[trigger] r.arrival_estimates@[k], resp.rtime_list@),
    {
        let buses = read_buses(&resp.list);
        let counts = read_counts(&resp.data);
        let segments = read_segments(&resp.dislist, &resp.speedlist);
        let etas = read_etas(&resp.rtime_list);
        proof {
            assert(BusPosition::models(buses@).len() == buses@.len());
            assert forall|i: int| 0 <= i < buses@.len() implies (#[trigger] buses@[i])@ == bus_of(resp.list@[i]@) by {
                assert(BusPosition::models(buses@)[i] == buses@[i]@);
                assert(RawBus::models(resp.list@)[i] == resp.list@[i]@);
            }
            assert(StationArrival::models(counts@).len() == counts@.len());
            assert forall|i: int| 0 <= i < counts@.len() implies (#[trigger] counts@[i])@ == count_of(resp.data@[i]@) by {
                assert(StationArrival::models(counts@)[i] == counts@[i]@);
                assert(RawCount::models(resp.data@)[i] == resp.data@[i]@);
            }
            assert forall|i: int| 0 <= i < segments@.len() implies (#[trigger] segments@[i]).speed == resp.speedlist@[i].speed by {
                assert(RawSpeed::models(resp.speedlist@)[i] == resp.speedlist@[i]@);
            }
            assert forall|k: int| 0 <= k < etas@.len() implies is_given(#[trigger] etas@[k], resp.rtime_list@) by {
                let j = lemma_eta(resp.rtime_list@, k);
                assert(resp.rtime_list@[j].count >= 0);
            }
        }
        RealTimeData {
            run_state: infer_realtime_run_state(resp.run_state, resp.has_real, &resp.plan_time),
            plan_time: resp.plan_time.clone(),
            buses: buses,
            station_arrivals: counts,
            segments: segments,
            arrival_estimates: etas,
        }
    }

    /// The lines of a city.
    pub fn all_lines(data: &Vec<RawRoute>) -> (r: Vec<BusRoute>)
        ensures
            BusRoute::models(r@) == routes_of(RawRoute::models(data@)),
            r@.len() == data@.len(),
            forall|i: int|
                0 <= i < r@.len() ==> ({
                    let (line, given) = (#[trigger] r@[i], data@[i]);
                    &&& line.name@ == given.line_name@ && line.direction_id@ == given.line_name@ + ":"@ + given.direction@
                    &&& line.endpoints.origin@ == name_and_alias(given.from@).0
                    &&& line.endpoints.terminus@ == name_and_alias(given.to@).0
                }),
    {
        let r = read_routes(data);
        proof {
            assert(BusRoute::models(r@).len() == r@.len());
            assert forall|i: int| 0 <= i < r@.len() implies (#[trigger] r@[i])@ == route_of(data@[i]@) by {
                assert(BusRoute::models(r@)[i] == r@[i]@);
                assert(RawRoute::models(data@)[i] == data@[i]@);
            }
        }
        r
    }
}

/// The id of a line leads back to its name and its direction, where the direction holds no colon.
pub proof fn law_direction_id_reads_back(name: Seq<char>, direction: Seq<char>)
    requires
        forall|i: int| 0 <= i < direction.len() ==> #[trigger] direction[i] != ':',
    ensures
        direction_parts(direction_id_of(name, direction)) == (name, direction),
{
    reveal_strlit(":");
    let id = direction_id_of(name, direction);
    let n = name.len() as int;
    assert(id[n] == ':');
    assert forall|j: int| n < j < id.len() implies #[trigger] id[j] != ':' by {
        assert(id[j] == direction[j - n - 1]);
    }
    crate::text::lemma_last_of(id, ':', n);
    assert(id.take(n) =~= name);
    assert(id.skip(n + 1) =~= direction);
}

/// Turning round twice leads back to the direction one came from.
pub proof fn law_reverse_of_reverse(name: Seq<char>, direction: Seq<char>)
    requires
        reverse_of(name, direction) is Some,
    ensures
        ({
            let (there, back) = direction_parts(reverse_of(name, direction)->0);
            there == name && reverse_of(there, back) == Some(direction_id_of(name, direction))
        }),
{
    reveal_strlit("1");
    reveal_strlit("2");
    law_direction_id_reads_back(name, "1"@);
    law_direction_id_reads_back(name, "2"@);
    assert("1"@[0] == '1');
    assert("2"@[0] == '2');
}

/// A line is stopped where the source says so, whatever else it says; without live data it does not run yet where
/// there is a time for the first vehicle, and else nothing is known; with live data it runs.
pub proof fn law_run_state_is_what_the_numbers_say(run_state: i32, has_real: i32, plan_time: Option<Seq<char>>)
    ensures
        state_of_numbers(run_state, has_real, plan_time) is Stopped <==> run_state == 1,
        state_of_numbers(run_state, has_real, plan_time) is Running <==> run_state != 1 && has_real != 0,
        run_state != 1 && has_real == 0 ==> (state_of_numbers(run_state, has_real, plan_time) is NotOperating <==> plan_time is Some
            && !is_blank(plan_time->0)),
        run_state != 1 && has_real == 0 && plan_time is None ==> state_of_numbers(run_state, has_real, plan_time) is NoRealtime,
{
}

/// What a text says of a line is known by its words.
pub proof fn law_run_state_is_what_the_text_says(text: Seq<char>)
    ensures
        state_of_text(text) is NoRealtime <==> trim(text).len() == 0,
        trim(text).len() > 0 ==> (state_of_text(text) is NotOperating <==> has(trim(text), "非运营"@) || has(trim(text), "未发车"@) || has(
            trim(text),
            "等待发车"@,
        )),
        state_of_text(text) is Stopped ==> has(trim(text), "停运"@) || has(trim(text), "收班"@),
        state_of_text(text) is Running ==> !(has(trim(text), "停运"@)) && !(has(trim(text), "收班"@)),
{
}

/// The stops that the source counts are the stops that are left; where it counts none they are read from the text.
pub proof fn law_arrival_is_read(
    text: Seq<char>,
    neardis: Seq<char>,
    neartime: Seq<char>,
    nearnum: i32,
    metres: Option<u32>,
)
    requires
        trim(text) == text,
        text.len() > 0,
        !(has(text, "即将到站"@)) && !(has(text, "进站中"@)) && !(has(text, "已到站"@)) && !(has(text, "等待发车"@)),
    ensures
        nearnum > 0 ==> match arrival_of(text, neardis, neartime, nearnum, metres) {
            ArrivalEstimate::Approaching { stations_away, distance_m, .. } => stations_away == nearnum && distance_m == metres,
            _ => false,
        },
        nearnum < 0 ==> arrival_of(text, neardis, neartime, nearnum, metres) is NoService,
        forall|a: Seq<char>, n: nat, b: Seq<char>|
            nearnum == 0 && n <= u32::MAX && text == #[trigger] (a + dec(n) + seq!['站'] + b) && (forall|i: int|
                0 <= i < a.len() ==> #[trigger] a[i] != '站') && (a.len() > 0 ==> !is_digit(a.last())) ==> match arrival_of(
                text,
                neardis,
                neartime,
                nearnum,
                metres,
            ) {
                ArrivalEstimate::Approaching { stations_away, distance_m, .. } => stations_away == n && distance_m == metres,
                _ => false,
            },
{
    assert forall|a: Seq<char>, n: nat, b: Seq<char>|
        nearnum == 0 && n <= u32::MAX && text == #[trigger] (a + dec(n) + seq!['站'] + b) && (forall|i: int|
            0 <= i < a.len() ==> #[trigger] a[i] != '站') && (a.len() > 0 ==> !is_digit(a.last())) implies number_before(text, '站')
        == Some(n) by {
        law_number_is_read_before_its_unit(a, n, '站', b);
    }
}

/// A vehicle that is pulling in is said to arrive, and one that waits is no service.
pub proof fn law_arrival_words_are_known(
    text: Seq<char>,
    neardis: Seq<char>,
    neartime: Seq<char>,
    nearnum: i32,
    metres: Option<u32>,
)
    ensures
        trim(text).len() == 0 <==> arrival_of(text, neardis, neartime, nearnum, metres) is Unknown && trim(text).len() == 0,
        trim(text).len() > 0 && (has(trim(text), "即将到站"@) || has(trim(text), "进站中"@) || has(trim(text), "已到站"@)) <==> arrival_of(
            text,
            neardis,
            neartime,
            nearnum,
            metres,
        ) is Arriving,
        trim(text).len() > 0 && has(trim(text), "等待发车"@) ==> !(arrival_of(text, neardis, neartime, nearnum, metres) is Approaching),
{
}

/// The minutes that the source gives in figures count before all others, and less than a minute is none.
pub proof fn law_minutes_are_read(
    text: Seq<char>,
    neardis: Seq<char>,
    nearnum: i32,
    metres: Option<u32>,
    minutes: nat,
    neartime: Seq<char>,
)
    requires
        trim(text) == text,
        text.len() > 0,
        !(has(text, "即将到站"@)) && !(has(text, "进站中"@)) && !(has(text, "已到站"@)) && !(has(text, "等待发车"@)),
        nearnum > 0,
        minutes <= u32::MAX,
        neartime == dec(minutes),
        trim(neartime) == neartime,
        !(has(neartime, "小于"@)) && !(has(neartime, "不到"@)),
    ensures
        match arrival_of(text, neardis, neartime, nearnum, metres) {
            ArrivalEstimate::Approaching { minutes_away, .. } => minutes_away == Some(minutes as u32),
            _ => false,
        },
{
    lemma_value_of_dec(minutes);
    lemma_read_of_dec(minutes, u32::MAX as nat);
    let p = |c: char| is_digit(c);
    assert(digits_of(neartime) == neartime) by {
        lemma_filter_keeps(neartime, p);
    }
}

proof fn lemma_filter_keeps(s: Seq<char>, p: spec_fn(char) -> bool)
    requires
        forall|i: int| 0 <= i < s.len() ==> p(#[trigger] s[i]),
    ensures
        s.filter(p) == s,
    decreases s.len(),
{
    reveal(Seq::filter);
    if s.len() > 0 {
        let front = s.drop_last();
        assert forall|i: int| 0 <= i < front.len() implies p(#[trigger] front[i]) by {
            assert(front[i] == s[i]);
        }
        lemma_filter_keeps(front, p);
        assert(p(s[s.len() - 1]));
        assert(front.push(s.last()) =~= s);
    } else {
        assert(s.filter(p) =~= s);
    }
}

/// Green is a free road, yellow and orange a slow one, red a jam; the colours go by name or by number.
pub proof fn law_colours_tell_the_traffic(color: Seq<char>)
    ensures
        congestion_of("green"@) is Smooth && congestion_of("yellow"@) is Slow && congestion_of("orange"@) is Slow && congestion_of("red"@)
            is Congested,
        congestion_of(color) is Smooth <==> color == "green"@ || color == "#00ff00"@ || color == "#4caf50"@,
        congestion_of(color) is Congested ==> color == "red"@ || color == "#f44336"@ || color == "#ff0000"@,
        congestion_of(color) is Slow ==> color == "yellow"@ || color == "orange"@ || color == "#ff9800"@ || color == "#ffeb3b"@,
{
    reveal_strlit("green");
    reveal_strlit("yellow");
    reveal_strlit("orange");
    reveal_strlit("red");
    reveal_strlit("#00ff00");
    reveal_strlit("#4caf50");
    reveal_strlit("#ff9800");
    reveal_strlit("#ffeb3b");
    assert("green"@[0] == 'g' && "yellow"@[0] == 'y' && "orange"@[0] == 'o' && "red"@[0] == 'r');
    assert("#00ff00"@[0] == '#' && "#4caf50"@[0] == '#' && "#ff9800"@[0] == '#' && "#ffeb3b"@[0] == '#');
}

/// A time of day is kept without the white space around it, and there is none where the text is blank.
pub proof fn law_time_is_kept_unless_blank(raw: Seq<char>)
    ensures
        service_time(raw) is None <==> is_blank(raw),
        service_time(raw) matches Some(t) ==> t.text == trim(raw),
{
}

/// Each vehicle of the live data is the one that the source gives at its place: arriving exactly where its state is zero,
/// at its stop and its position, with its number.
pub proof fn law_vehicles_are_as_given(resp: RawRealtimeModel, i: int)
    requires
        0 <= i < resp.list.len(),
    ensures
        ({
            let bus = realtime_of(resp).buses[i];
            &&& realtime_of(resp).buses.len() == resp.list.len()
            &&& bus.is_arriving <==> resp.list[i].status_type == "0"@
            &&& bus.bus_id == resp.list[i].bus_number && bus.station_index == resp.list[i].index
            &&& bus.lat == resp.list[i].lat && bus.lng == resp.list[i].lng
            &&& bus.distance_to_station == Some(resp.list[i].distance)
        }),
{
}

} // verus!
