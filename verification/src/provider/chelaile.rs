//! 车来了: what its replies say.
//!
//! The replies come as plain values; numbers with a fraction are rounded by whoever fetches them.
use crate::models::{
    terminal_of, ArrivalDetail, ArrivalEstimate, BusPosition, BusPositionModel, BusRoute, BusRouteModel, ContactInfo, ContactInfoModel,
    CrowdLevel, Double, EndpointsView, EndpointsViewModel, Fare, FareModel, GeoPoint, LineDetail, LineDetailModel, LineMeta, LineMetaModel,
    LineStop, LineStopModel, LineSummary, LineSummaryModel, RealTimeData, RealTimeDataModel, RouteSegment, RouteTopology,
    RouteTopologyModel, RunState, ServiceTime, Station, StationArrival, StationArrivalModel, StationModel, StopStatus, Terminal,
};
use crate::provider::mygolbs::service_time;
use crate::provider::reading::{
    either, estimate_minutes, find_number, first_there, has_any, law_number_is_read_before_its_unit, minutes_for, not_empty, number_before, small, unless_empty,
};
use crate::seqs::{first_where, lemma_first_where};
use crate::text::{all_digits, chars_of, contains, copy, dec, digit, has, is_digit, last_of, opt_view, rfind_char, same, text_of, trim, trimmed};
use vstd::prelude::*;

verus! {

/// Whether a line is running, by what the source says of its next vehicle.
pub open spec fn state_of_text(text: Seq<char>) -> RunState {
    let text = trim(text);
    if text.len() == 0 {
        RunState::NoRealtime
    } else if has(text, "末班"@) || has(text, "等待发车"@) || has(text, "未发车"@) || has(text, "非运营"@) {
        RunState::NotOperating
    } else if has(text, "停运"@) || has(text, "收班"@) {
        RunState::Stopped
    } else {
        RunState::Running
    }
}

/// Whether a line is running, by what the source says of its next vehicle.
pub fn infer_run_state_from_text(text: &str) -> (r: RunState)
    ensures
        r == state_of_text(text@),
{
    let t = trimmed(text);
    let s = t.as_str();
    if s.is_empty() {
        RunState::NoRealtime
    } else if contains(s, "末班") || contains(s, "等待发车") || contains(s, "未发车") || contains(s, "非运营") {
        RunState::NotOperating
    } else if contains(s, "停运") || contains(s, "收班") {
        RunState::Stopped
    } else {
        RunState::Running
    }
}

/// The minutes that a description names: 0 for less than one.
pub open spec fn minutes_in(text: Seq<char>) -> Option<u32> {
    if has_any(text, "小于"@, "不到"@) {
        Some(0)
    } else {
        small(number_before(text, '分'))
    }
}

fn extract_minutes_from_desc(text: &str) -> (r: Option<u32>)
    ensures
        r == minutes_in(text@),
{
    if contains(text, "小于") || contains(text, "不到") {
        return Some(0);
    }
    find_number(text, '分')
}

/// When the next vehicle comes, by its description, the state of the line and its distance.
pub open spec fn arrival_of(desc: Seq<char>, state: i32, distance_to_sp: u32) -> ArrivalEstimate {
    let text = trim(desc);
    let stations = small(number_before(text, '站'));
    let minutes = minutes_in(text);
    let distance_m = if distance_to_sp > 0 {
        Some(distance_to_sp)
    } else {
        None
    };
    if state == -3 || has(text, "末班时间已过"@) {
        ArrivalEstimate::NoService
    } else if state == -1 || has(text, "等待发车"@) || has(text, "未发车"@) {
        ArrivalEstimate::NoService
    } else if text.len() == 0 {
        ArrivalEstimate::Unknown
    } else if has(text, "即将到站"@) || has(text, "进站中"@) || has(text, "已到站"@) {
        ArrivalEstimate::Arriving
    } else if stations is Some || minutes is Some {
        ArrivalEstimate::Approaching {
            stations_away: match stations {
                Some(n) => n,
                None => 0,
            },
            minutes_away: either(minutes, minutes_for(distance_m)),
            distance_m: distance_m,
        }
    } else {
        ArrivalEstimate::Unknown
    }
}

/// When the next vehicle comes, by its description, the state of the line and its distance.
pub fn parse_chelaile_arrival(desc: &str, state: i32, distance_to_sp: u32) -> (r: ArrivalEstimate)
    ensures
        r == arrival_of(desc@, state, distance_to_sp),
{
    let t = trimmed(desc);
    let text = t.as_str();
    if state == -3 || contains(text, "末班时间已过") {
        return ArrivalEstimate::NoService;
    }
    if state == -1 || contains(text, "等待发车") || contains(text, "未发车") {
        return ArrivalEstimate::NoService;
    }
    if text.is_empty() {
        return ArrivalEstimate::Unknown;
    }
    if contains(text, "即将到站") || contains(text, "进站中") || contains(text, "已到站") {
        return ArrivalEstimate::Arriving;
    }
    let stations: Option<u32> = find_number(text, '站');
    let minutes: Option<u32> = extract_minutes_from_desc(text);
    let distance_m: Option<u32> = if distance_to_sp > 0 {
        Some(distance_to_sp)
    } else {
        None
    };
    if stations.is_some() || minutes.is_some() {
        let away: u32 = match stations {
            Some(n) => n,
            None => 0,
        };
        ArrivalEstimate::Approaching {
            stations_away: away,
            minutes_away: first_there(minutes, estimate_minutes(distance_m)),
            distance_m: distance_m,
        }
    } else {
        ArrivalEstimate::Unknown
    }
}

// ─── replies ───

/// Where a line is met at a stop.
#[derive(Debug, Clone, Copy, PartialEq, Eq, Structural)]
pub struct NearTarget {
    pub order: u32,
    pub distance_to_sp: u32,
}

/// A line that calls at a stop.
#[derive(Debug)]
pub struct NearLine {
    pub line_id: String,
    pub name: String,
    pub desc: String,
    pub state: i32,
    pub start_sn: String,
    pub end_sn: String,
    pub target_station: Option<NearTarget>,
}

/// What a [`NearLine`] holds.
#[verifier::ext_equal]
pub struct NearLineModel {
    pub line_id: Seq<char>,
    pub name: Seq<char>,
    pub desc: Seq<char>,
    pub state: i32,
    pub start_sn: Seq<char>,
    pub end_sn: Seq<char>,
    pub target_station: Option<NearTarget>,
}

impl View for NearLine {
    type V = NearLineModel;

    open spec fn view(&self) -> NearLineModel {
        NearLineModel {
            line_id: self.line_id@,
            name: self.name@,
            desc: self.desc@,
            state: self.state,
            start_sn: self.start_sn@,
            end_sn: self.end_sn@,
            target_station: self.target_station,
        }
    }
}

impl NearLine {
    /// What a list of [`NearLine`] holds.
    pub open spec fn models(list: Seq<NearLine>) -> Seq<NearLineModel> {
        list.map_values(|x: NearLine| x@)
    }
}

impl Clone for NearLine {
    fn clone(&self) -> (r: Self)
        ensures
            r@ == self@,
    {
        let r = NearLine {
            line_id: self.line_id.clone(),
            name: self.name.clone(),
            desc: self.desc.clone(),
            state: self.state,
            start_sn: self.start_sn.clone(),
            end_sn: self.end_sn.clone(),
            target_station: self.target_station,
        };
        r
    }
}

/// A stop near a position.
#[derive(Debug)]
pub struct NearStation {
    pub s_id: String,
    pub station_name: String,
    pub lat: Double,
    pub lng: Double,
    pub distance: u32,
    pub lines: Vec<NearLine>,
}

/// What a [`NearStation`] holds.
#[verifier::ext_equal]
pub struct NearStationModel {
    pub s_id: Seq<char>,
    pub station_name: Seq<char>,
    pub lat: Double,
    pub lng: Double,
    pub distance: u32,
    pub lines: Seq<NearLineModel>,
}

impl View for NearStation {
    type V = NearStationModel;

    open spec fn view(&self) -> NearStationModel {
        NearStationModel {
            s_id: self.s_id@,
            station_name: self.station_name@,
            lat: self.lat,
            lng: self.lng,
            distance: self.distance,
            lines: NearLine::models(self.lines@),
        }
    }
}

impl NearStation {
    /// What a list of [`NearStation`] holds.
    pub open spec fn models(list: Seq<NearStation>) -> Seq<NearStationModel> {
        list.map_values(|x: NearStation| x@)
    }
}

impl Clone for NearStation {
    fn clone(&self) -> (r: Self)
        ensures
            r@ == self@,
    {
        let r = NearStation {
            s_id: self.s_id.clone(),
            station_name: self.station_name.clone(),
            lat: self.lat,
            lng: self.lng,
            distance: self.distance,
            lines: self.lines.clone(),
        };
        proof {
            assert(NearLine::models(r.lines@) =~= NearLine::models(self.lines@));
        }
        r
    }
}

/// The stops near a position and their lines.
#[derive(Debug)]
pub struct NearbyResponse {
    pub near_lines: Vec<NearStation>,
}

/// What a [`NearbyResponse`] holds.
#[verifier::ext_equal]
pub struct NearbyResponseModel {
    pub near_lines: Seq<NearStationModel>,
}

impl View for NearbyResponse {
    type V = NearbyResponseModel;

    open spec fn view(&self) -> NearbyResponseModel {
        NearbyResponseModel {
            near_lines: NearStation::models(self.near_lines@),
        }
    }
}

impl Clone for NearbyResponse {
    fn clone(&self) -> (r: Self)
        ensures
            r@ == self@,
    {
        let r = NearbyResponse {
            near_lines: self.near_lines.clone(),
        };
        proof {
            assert(NearStation::models(r.near_lines@) =~= NearStation::models(self.near_lines@));
        }
        r
    }
}

/// What is known of a line.
#[derive(Debug)]
pub struct RouteLine {
    pub line_no: String,
    pub first_time: String,
    pub last_time: String,
    pub price: String,
    pub company: String,
}

/// What a [`RouteLine`] holds.
#[verifier::ext_equal]
pub struct RouteLineModel {
    pub line_no: Seq<char>,
    pub first_time: Seq<char>,
    pub last_time: Seq<char>,
    pub price: Seq<char>,
    pub company: Seq<char>,
}

impl View for RouteLine {
    type V = RouteLineModel;

    open spec fn view(&self) -> RouteLineModel {
        RouteLineModel {
            line_no: self.line_no@,
            first_time: self.first_time@,
            last_time: self.last_time@,
            price: self.price@,
            company: self.company@,
        }
    }
}

/// A stop of a line.
#[derive(Debug)]
pub struct RouteStop {
    pub s_id: String,
    pub station_name: String,
    pub order: u32,
    pub lat: Double,
    pub lng: Double,
}

/// What a [`RouteStop`] holds.
#[verifier::ext_equal]
pub struct RouteStopModel {
    pub s_id: Seq<char>,
    pub station_name: Seq<char>,
    pub order: u32,
    pub lat: Double,
    pub lng: Double,
}

impl View for RouteStop {
    type V = RouteStopModel;

    open spec fn view(&self) -> RouteStopModel {
        RouteStopModel {
            s_id: self.s_id@,
            station_name: self.station_name@,
            order: self.order,
            lat: self.lat,
            lng: self.lng,
        }
    }
}

impl RouteStop {
    /// What a list of [`RouteStop`] holds.
    pub open spec fn models(list: Seq<RouteStop>) -> Seq<RouteStopModel> {
        list.map_values(|x: RouteStop| x@)
    }
}

/// A line with its stops.
#[derive(Debug)]
pub struct RouteReply {
    pub line: Option<RouteLine>,
    pub stations: Vec<RouteStop>,
}

/// What a [`RouteReply`] holds.
#[verifier::ext_equal]
pub struct RouteReplyModel {
    pub line: Option<RouteLineModel>,
    pub stations: Seq<RouteStopModel>,
}

impl View for RouteReply {
    type V = RouteReplyModel;

    open spec fn view(&self) -> RouteReplyModel {
        RouteReplyModel {
            line: (match self.line { Some(x) => Some(x@), None => None }),
            stations: RouteStop::models(self.stations@),
        }
    }
}

/// A vehicle.
#[derive(Debug)]
pub struct Vehicle {
    pub bus_id: String,
    pub order: u32,
    pub state: String,
    pub lat: Option<Double>,
    pub lng: Option<Double>,
    /// The distance the source gives, in metres.
    pub distance: Double,
    /// The same, rounded to whole metres.
    pub shown_m: i64,
    /// The same distance, cut to whole metres.
    pub metres: u32,
    /// Metres as the crow flies to each stop of the line.
    pub stop_distances_m: Vec<u32>,
    /// Seconds, where the source gives any.
    pub travel_time: Option<u32>,
    pub time_str: String,
}

/// What a [`Vehicle`] holds.
#[verifier::ext_equal]
pub struct VehicleModel {
    pub bus_id: Seq<char>,
    pub order: u32,
    pub state: Seq<char>,
    pub lat: Option<Double>,
    pub lng: Option<Double>,
    pub distance: Double,
    pub shown_m: i64,
    pub metres: u32,
    pub stop_distances_m: Seq<u32>,
    pub travel_time: Option<u32>,
    pub time_str: Seq<char>,
}

impl View for Vehicle {
    type V = VehicleModel;

    open spec fn view(&self) -> VehicleModel {
        VehicleModel {
            bus_id: self.bus_id@,
            order: self.order,
            state: self.state@,
            lat: self.lat,
            lng: self.lng,
            distance: self.distance,
            shown_m: self.shown_m,
            metres: self.metres,
            stop_distances_m: self.stop_distances_m@,
            travel_time: self.travel_time,
            time_str: self.time_str@,
        }
    }
}

impl Vehicle {
    /// What a list of [`Vehicle`] holds.
    pub open spec fn models(list: Seq<Vehicle>) -> Seq<VehicleModel> {
        list.map_values(|x: Vehicle| x@)
    }
}

/// A line in the list of lines.
#[derive(Debug)]
pub struct ListedLine {
    pub line_id: String,
    pub line_name: String,
    pub start_stop_name: String,
    pub end_stop_name: String,
}

/// What a [`ListedLine`] holds.
#[verifier::ext_equal]
pub struct ListedLineModel {
    pub line_id: Seq<char>,
    pub line_name: Seq<char>,
    pub start_stop_name: Seq<char>,
    pub end_stop_name: Seq<char>,
}

impl View for ListedLine {
    type V = ListedLineModel;

    open spec fn view(&self) -> ListedLineModel {
        ListedLineModel {
            line_id: self.line_id@,
            line_name: self.line_name@,
            start_stop_name: self.start_stop_name@,
            end_stop_name: self.end_stop_name@,
        }
    }
}

impl ListedLine {
    /// What a list of [`ListedLine`] holds.
    pub open spec fn models(list: Seq<ListedLine>) -> Seq<ListedLineModel> {
        list.map_values(|x: ListedLine| x@)
    }
}

/// What a request for live data names.
#[derive(Debug)]
pub struct RealtimeQuery {
    pub line_name: String,
    pub direction: String,
    pub station_name: String,
    pub next_station_name: String,
}

/// What a [`RealtimeQuery`] holds.
#[verifier::ext_equal]
pub struct RealtimeQueryModel {
    pub line_name: Seq<char>,
    pub direction: Seq<char>,
    pub station_name: Seq<char>,
    pub next_station_name: Seq<char>,
}

impl View for RealtimeQuery {
    type V = RealtimeQueryModel;

    open spec fn view(&self) -> RealtimeQueryModel {
        RealtimeQueryModel {
            line_name: self.line_name@,
            direction: self.direction@,
            station_name: self.station_name@,
            next_station_name: self.next_station_name@,
        }
    }
}

/// The source for one city.
#[derive(Debug)]
pub struct ChelaileProvider {
    pub city_id: String,
    /// The last reply on what is nearby.
    pub cached_nearby: Option<NearbyResponse>,
}

/// What a [`ChelaileProvider`] holds.
#[verifier::ext_equal]
pub struct ChelaileProviderModel {
    pub city_id: Seq<char>,
    pub cached_nearby: Option<NearbyResponseModel>,
}

impl View for ChelaileProvider {
    type V = ChelaileProviderModel;

    open spec fn view(&self) -> ChelaileProviderModel {
        ChelaileProviderModel {
            city_id: self.city_id@,
            cached_nearby: (match self.cached_nearby { Some(x) => Some(x@), None => None }),
        }
    }
}

/// A stop near a position.
pub open spec fn station_of(s: NearStationModel) -> StationModel {
    StationModel {
        id: Some(s.s_id),
        name: s.station_name,
        alias: None,
        lat: s.lat,
        lng: s.lng,
        distance_m: s.distance,
        same_name_count: 0,
    }
}

fn read_station(s: &NearStation) -> (r: Station)
    ensures
        r@ == station_of(s@),
{
    Station {
        id: Some(s.s_id.clone()),
        name: s.station_name.clone(),
        alias: None,
        lat: s.lat,
        lng: s.lng,
        distance_m: s.distance,
        same_name_count: 0,
    }
}

/// The ends of a line by their names.
pub open spec fn ends_of(origin: Seq<char>, terminus: Seq<char>) -> EndpointsViewModel {
    EndpointsViewModel { origin: origin, origin_alias: None, terminus: terminus, terminus_alias: None }
}

/// A line that calls at a stop.
pub open spec fn summary_of(l: NearLineModel) -> LineSummaryModel {
    LineSummaryModel {
        id: Some(l.line_id),
        name: l.name,
        direction_id: l.line_id,
        endpoints: ends_of(l.start_sn, l.end_sn),
        arrival: arrival_of(
            l.desc,
            l.state,
            match l.target_station {
                Some(t) => t.distance_to_sp,
                None => 0,
            },
        ),
        station_order: match l.target_station {
            Some(t) => t.order,
            None => 0,
        },
        run_state: state_of_text(l.desc),
    }
}

fn read_summary(l: &NearLine) -> (r: LineSummary)
    ensures
        r@ == summary_of(l@),
{
    let (order, distance): (u32, u32) = match l.target_station {
        Some(t) => (t.order, t.distance_to_sp),
        None => (0, 0),
    };
    LineSummary {
        id: Some(l.line_id.clone()),
        name: l.name.clone(),
        direction_id: l.line_id.clone(),
        endpoints: EndpointsView {
            origin: l.start_sn.clone(),
            origin_alias: None,
            terminus: l.end_sn.clone(),
            terminus_alias: None,
        },
        arrival: parse_chelaile_arrival(l.desc.as_str(), l.state, distance),
        station_order: order,
        run_state: infer_run_state_from_text(l.desc.as_str()),
    }
}

/// A stop of a line.
pub open spec fn stop_of(s: RouteStopModel) -> LineStopModel {
    LineStopModel {
        id: Some(s.s_id),
        name: s.station_name,
        alias: None,
        order: s.order,
        lat: s.lat,
        lng: s.lng,
        status: StopStatus::Normal,
        track_index: None,
    }
}

fn read_stop(s: &RouteStop) -> (r: LineStop)
    ensures
        r@ == stop_of(s@),
{
    LineStop {
        id: Some(s.s_id.clone()),
        name: s.station_name.clone(),
        alias: None,
        order: s.order,
        lat: s.lat,
        lng: s.lng,
        status: StopStatus::Normal,
        track_index: None,
    }
}

/// A vehicle.
pub open spec fn bus_of(b: VehicleModel) -> BusPositionModel {
    BusPositionModel {
        bus_id: b.bus_id,
        station_index: b.order,
        is_arriving: b.state == "0"@,
        lat: b.lat,
        lng: b.lng,
        angle: None,
        distance_to_station: Some(b.distance),
        distance_shown_m: Some(b.shown_m),
        stop_distances_m: b.stop_distances_m,
        travel_time_secs: b.travel_time,
        station_name: None,
        crowd_status: CrowdLevel::Unknown,
        track_segment_index: None,
        state_description: unless_empty(b.time_str),
    }
}

fn read_bus(b: &Vehicle) -> (r: BusPosition)
    ensures
        r@ == bus_of(b@),
{
    let r = BusPosition {
        bus_id: b.bus_id.clone(),
        station_index: b.order,
        is_arriving: same(b.state.as_str(), "0"),
        lat: b.lat,
        lng: b.lng,
        angle: None,
        distance_to_station: Some(b.distance),
        distance_shown_m: Some(b.shown_m),
        stop_distances_m: b.stop_distances_m.clone(),
        travel_time_secs: b.travel_time,
        station_name: None,
        crowd_status: CrowdLevel::Unknown,
        track_segment_index: None,
        state_description: not_empty(b.time_str.as_str()),
    };
    assert(r.stop_distances_m@ =~= b.stop_distances_m@);
    r
}

/// A line in the list of lines.
pub open spec fn route_of(l: ListedLineModel) -> BusRouteModel {
    BusRouteModel {
        id: Some(l.line_id),
        name: l.line_name,
        direction_id: l.line_id,
        start: terminal_of(l.start_stop_name),
        end: terminal_of(l.end_stop_name),
        endpoints: ends_of(l.start_stop_name, l.end_stop_name),
        company: None,
    }
}

fn read_route(l: &ListedLine) -> (r: BusRoute)
    ensures
        r@ == route_of(l@),
{
    BusRoute {
        id: Some(l.line_id.clone()),
        name: l.line_name.clone(),
        direction_id: l.line_id.clone(),
        start: Terminal::named(l.start_stop_name.as_str()),
        end: Terminal::named(l.end_stop_name.as_str()),
        endpoints: EndpointsView {
            origin: l.start_stop_name.clone(),
            origin_alias: None,
            terminus: l.end_stop_name.clone(),
            terminus_alias: None,
        },
        company: None,
    }
}

/// The stops near a position.
pub open spec fn stations_of(list: Seq<NearStationModel>) -> Seq<StationModel> {
    list.map_values(|x: NearStationModel| station_of(x))
}

fn read_stations(list: &Vec<NearStation>) -> (r: Vec<Station>)
    ensures
        Station::models(r@) == stations_of(NearStation::models(list@)),
{
    let ghost wanted = stations_of(NearStation::models(list@));
    let mut r: Vec<Station> = Vec::new();
    let mut i: usize = 0;
    assert(Station::models(r@) =~= wanted.take(0));
    while i < list.len()
        invariant
            i <= list@.len(),
            wanted == stations_of(NearStation::models(list@)),
            Station::models(r@) == wanted.take(i as int),
        decreases list.len() - i,
    {
        let ghost had = Station::models(r@);
        assert(NearStation::models(list@)[i as int] == list@[i as int]@);
        let item = read_station(&list[i]);
        assert(item@ == wanted[i as int]);
        r.push(item);
        assert(Station::models(r@) =~= had.push(wanted[i as int]));
        assert(wanted.take(i + 1) =~= wanted.take(i as int).push(wanted[i as int]));
        i += 1;
    }
    assert(wanted.take(i as int) =~= wanted);
    r
}

/// The lines that call at a stop.
pub open spec fn summaries_of(list: Seq<NearLineModel>) -> Seq<LineSummaryModel> {
    list.map_values(|x: NearLineModel| summary_of(x))
}

fn read_summaries(list: &Vec<NearLine>) -> (r: Vec<LineSummary>)
    ensures
        LineSummary::models(r@) == summaries_of(NearLine::models(list@)),
{
    let ghost wanted = summaries_of(NearLine::models(list@));
    let mut r: Vec<LineSummary> = Vec::new();
    let mut i: usize = 0;
    assert(LineSummary::models(r@) =~= wanted.take(0));
    while i < list.len()
        invariant
            i <= list@.len(),
            wanted == summaries_of(NearLine::models(list@)),
            LineSummary::models(r@) == wanted.take(i as int),
        decreases list.len() - i,
    {
        let ghost had = LineSummary::models(r@);
        assert(NearLine::models(list@)[i as int] == list@[i as int]@);
        let item = read_summary(&list[i]);
        assert(item@ == wanted[i as int]);
        r.push(item);
        assert(LineSummary::models(r@) =~= had.push(wanted[i as int]));
        assert(wanted.take(i + 1) =~= wanted.take(i as int).push(wanted[i as int]));
        i += 1;
    }
    assert(wanted.take(i as int) =~= wanted);
    r
}

/// The stops of a line.
pub open spec fn stops_of(list: Seq<RouteStopModel>) -> Seq<LineStopModel> {
    list.map_values(|x: RouteStopModel| stop_of(x))
}

fn read_stops(list: &Vec<RouteStop>) -> (r: Vec<LineStop>)
    ensures
        LineStop::models(r@) == stops_of(RouteStop::models(list@)),
{
    let ghost wanted = stops_of(RouteStop::models(list@));
    let mut r: Vec<LineStop> = Vec::new();
    let mut i: usize = 0;
    assert(LineStop::models(r@) =~= wanted.take(0));
    while i < list.len()
        invariant
            i <= list@.len(),
            wanted == stops_of(RouteStop::models(list@)),
            LineStop::models(r@) == wanted.take(i as int),
        decreases list.len() - i,
    {
        let ghost had = LineStop::models(r@);
        assert(RouteStop::models(list@)[i as int] == list@[i as int]@);
        let item = read_stop(&list[i]);
        assert(item@ == wanted[i as int]);
        r.push(item);
        assert(LineStop::models(r@) =~= had.push(wanted[i as int]));
        assert(wanted.take(i + 1) =~= wanted.take(i as int).push(wanted[i as int]));
        i += 1;
    }
    assert(wanted.take(i as int) =~= wanted);
    r
}

/// The vehicles of a line.
pub open spec fn buses_of(list: Seq<VehicleModel>) -> Seq<BusPositionModel> {
    list.map_values(|x: VehicleModel| bus_of(x))
}

fn read_buses(list: &Vec<Vehicle>) -> (r: Vec<BusPosition>)
    ensures
        BusPosition::models(r@) == buses_of(Vehicle::models(list@)),
{
    let ghost wanted = buses_of(Vehicle::models(list@));
    let mut r: Vec<BusPosition> = Vec::new();
    let mut i: usize = 0;
    assert(BusPosition::models(r@) =~= wanted.take(0));
    while i < list.len()
        invariant
            i <= list@.len(),
            wanted == buses_of(Vehicle::models(list@)),
            BusPosition::models(r@) == wanted.take(i as int),
        decreases list.len() - i,
    {
        let ghost had = BusPosition::models(r@);
        assert(Vehicle::models(list@)[i as int] == list@[i as int]@);
        let item = read_bus(&list[i]);
        assert(item@ == wanted[i as int]);
        r.push(item);
        assert(BusPosition::models(r@) =~= had.push(wanted[i as int]));
        assert(wanted.take(i + 1) =~= wanted.take(i as int).push(wanted[i as int]));
        i += 1;
    }
    assert(wanted.take(i as int) =~= wanted);
    r
}

/// The lines of a city.
pub open spec fn routes_of(list: Seq<ListedLineModel>) -> Seq<BusRouteModel> {
    list.map_values(|x: ListedLineModel| route_of(x))
}

fn read_routes(list: &Vec<ListedLine>) -> (r: Vec<BusRoute>)
    ensures
        BusRoute::models(r@) == routes_of(ListedLine::models(list@)),
{
    let ghost wanted = routes_of(ListedLine::models(list@));
    let mut r: Vec<BusRoute> = Vec::new();
    let mut i: usize = 0;
    assert(BusRoute::models(r@) =~= wanted.take(0));
    while i < list.len()
        invariant
            i <= list@.len(),
            wanted == routes_of(ListedLine::models(list@)),
            BusRoute::models(r@) == wanted.take(i as int),
        decreases list.len() - i,
    {
        let ghost had = BusRoute::models(r@);
        assert(ListedLine::models(list@)[i as int] == list@[i as int]@);
        let item = read_route(&list[i]);
        assert(item@ == wanted[i as int]);
        r.push(item);
        assert(BusRoute::models(r@) =~= had.push(wanted[i as int]));
        assert(wanted.take(i + 1) =~= wanted.take(i as int).push(wanted[i as int]));
        i += 1;
    }
    assert(wanted.take(i as int) =~= wanted);
    r
}

/// Every vehicle is described with one of two words.
pub open spec fn all_say(buses: Seq<VehicleModel>, a: Seq<char>, b: Seq<char>) -> bool {
    forall|i: int| 0 <= i < buses.len() ==> has_any(#[trigger] buses[i].time_str, a, b)
}

fn every_one_says(buses: &Vec<Vehicle>, a: &str, b: &str) -> (r: bool)
    ensures
        r == all_say(Vehicle::models(buses@), a@, b@),
{
    let ghost list = Vehicle::models(buses@);
    let mut i: usize = 0;
    while i < buses.len()
        invariant
            i <= buses@.len(),
            list == Vehicle::models(buses@),
            forall|j: int| 0 <= j < i ==> has_any(#[trigger] list[j].time_str, a@, b@),
        decreases buses.len() - i,
    {
        let text = buses[i].time_str.as_str();
        assert(list[i as int].time_str == text@);
        if !contains(text, a) && !contains(text, b) {
            return false;
        }
        i += 1;
    }
    true
}

/// Whether a line is running, by its vehicles.
pub open spec fn state_of_buses(buses: Seq<VehicleModel>) -> RunState {
    if buses.len() == 0 {
        RunState::NoRealtime
    } else if all_say(buses, "未发车"@, "等待发车"@) {
        RunState::NotOperating
    } else if all_say(buses, "停运"@, "收班"@) {
        RunState::Stopped
    } else {
        RunState::Running
    }
}

/// Whether a line is running, by its vehicles.
pub fn infer_realtime_run_state(buses: &Vec<Vehicle>) -> (r: RunState)
    ensures
        r == state_of_buses(Vehicle::models(buses@)),
{
    if buses.len() == 0 {
        return RunState::NoRealtime;
    }
    if every_one_says(buses, "未发车", "等待发车") {
        return RunState::NotOperating;
    }
    if every_one_says(buses, "停运", "收班") {
        return RunState::Stopped;
    }
    RunState::Running
}

/// When the vehicles that are still before the stop arrive there, as far as the source says it.
pub open spec fn estimates_of(buses: Seq<VehicleModel>, target_order: u32) -> Seq<ArrivalDetail>
    decreases buses.len(),
{
    if buses.len() == 0 {
        Seq::empty()
    } else {
        let before = estimates_of(buses.drop_last(), target_order);
        let b = buses.last();
        match b.travel_time {
            Some(secs) => if b.order < target_order {
                before.push(
                    ArrivalDetail {
                        stations_away: (target_order - b.order) as u32,
                        minutes_away: if secs / 60 > 1 {
                            secs / 60
                        } else {
                            1
                        },
                        distance_m: b.metres,
                    },
                )
            } else {
                before
            },
            None => before,
        }
    }
}

fn read_estimates(buses: &Vec<Vehicle>, target_order: u32) -> (r: Vec<ArrivalDetail>)
    ensures
        r@ == estimates_of(Vehicle::models(buses@), target_order),
{
    let ghost list = Vehicle::models(buses@);
    let mut r: Vec<ArrivalDetail> = Vec::new();
    let mut i: usize = 0;
    assert(list.take(0) =~= Seq::<VehicleModel>::empty());
    while i < buses.len()
        invariant
            i <= buses@.len(),
            list == Vehicle::models(buses@),
            r@ == estimates_of(list.take(i as int), target_order),
        decreases buses.len() - i,
    {
        let b = &buses[i];
        assert(list[i as int] == buses@[i as int]@);
        assert(list.take(i + 1).drop_last() =~= list.take(i as int));
        assert(list.take(i + 1).last() == list[i as int]);
        match b.travel_time {
            Some(secs) => if b.order < target_order {
                let minutes: u32 = if secs / 60 > 1 {
                    secs / 60
                } else {
                    1
                };
                r.push(
                    ArrivalDetail {
                        stations_away: target_order - b.order,
                        minutes_away: minutes,
                        distance_m: b.metres,
                    },
                );
            },
            None => {},
        }
        i += 1;
    }
    assert(list.take(i as int) =~= list);
    r
}

/// The direction that an id ends with: at most two digits behind its last hyphen.
pub open spec fn direction_of(key: Seq<char>) -> Seq<char> {
    let at = last_of(key, '-');
    let suffix = key.skip(at + 1);
    if at >= 0 && suffix.len() <= 2 && all_digits(suffix) {
        suffix
    } else {
        Seq::empty()
    }
}

/// The id of the other direction: the one that ends with 1 for 0, and with 0 for 1.
pub open spec fn reverse_of(key: Seq<char>) -> Option<Seq<char>> {
    let at = last_of(key, '-');
    if at < 0 {
        None
    } else if key.skip(at + 1) == "0"@ {
        Some(key.take(at + 1) + "1"@)
    } else if key.skip(at + 1) == "1"@ {
        Some(key.take(at + 1) + "0"@)
    } else {
        None
    }
}

/// A named stop, by its place in the list.
pub open spec fn name_at(stops: Seq<RouteStopModel>, i: int) -> Seq<char> {
    if 0 <= i < stops.len() {
        stops[i].station_name
    } else {
        Seq::empty()
    }
}

fn name_of_stop(stops: &Vec<RouteStop>, i: usize) -> (r: String)
    ensures
        r@ == name_at(RouteStop::models(stops@), i as int),
{
    if i < stops.len() {
        assert(RouteStop::models(stops@)[i as int] == stops@[i as int]@);
        stops[i].station_name.clone()
    } else {
        String::new()
    }
}

/// The number that a line goes by.
pub open spec fn number_of(line: Option<RouteLineModel>) -> Seq<char> {
    match line {
        Some(l) => l.line_no,
        None => Seq::empty(),
    }
}

/// A line with its stops.
pub open spec fn line_of(resp: RouteReplyModel, key: Seq<char>) -> LineDetailModel {
    LineDetailModel {
        id: Some(key),
        name: number_of(resp.line),
        direction_id: key,
        reverse_id: reverse_of(key),
        topology: RouteTopologyModel {
            start: terminal_of(name_at(resp.stations, 0)),
            end: terminal_of(name_at(resp.stations, resp.stations.len() - 1)),
            stations: stops_of(resp.stations),
            track_points: Seq::empty(),
        },
        meta: match resp.line {
            Some(l) => LineMetaModel {
                first_service: service_time(l.first_time),
                last_service: service_time(l.last_time),
                fare: if l.price.len() == 0 {
                    FareModel::Unknown
                } else {
                    FareModel::Text(l.price)
                },
                company: unless_empty(l.company),
                contact: ContactInfoModel::Unknown,
                notes: None,
            },
            None => LineMetaModel {
                first_service: None,
                last_service: None,
                fare: FareModel::Unknown,
                company: None,
                contact: ContactInfoModel::Unknown,
                notes: None,
            },
        },
    }
}

/// What a request for the live data of a line at its stop `target_order` names.
pub open spec fn query_of(route: RouteReplyModel, key: Seq<char>, target_order: u32) -> RealtimeQueryModel {
    let at = if target_order > 0 {
        target_order - 1
    } else {
        0
    };
    RealtimeQueryModel {
        line_name: number_of(route.line),
        direction: direction_of(key),
        station_name: name_at(route.stations, at),
        next_station_name: name_at(route.stations, at + 1),
    }
}

/// The live data of a line.
pub open spec fn realtime_of(buses: Seq<VehicleModel>, target_order: u32) -> RealTimeDataModel {
    RealTimeDataModel {
        run_state: state_of_buses(buses),
        plan_time: None,
        buses: buses_of(buses),
        station_arrivals: Seq::empty(),
        segments: Seq::empty(),
        arrival_estimates: estimates_of(buses, target_order),
    }
}

/// The stop of that name is meant.
pub open spec fn is_called(name: Seq<char>) -> spec_fn(NearStationModel) -> bool {
    |s: NearStationModel| s.station_name == name
}

/// The lines that call at the first stop of that name; none where there is no such stop.
pub open spec fn lines_at(resp: NearbyResponseModel, station: Seq<char>) -> Seq<LineSummaryModel> {
    let at = first_where(resp.near_lines, is_called(station));
    if at < resp.near_lines.len() {
        summaries_of(resp.near_lines[at].lines)
    } else {
        Seq::empty()
    }
}

impl ChelaileProvider {
    /// The source for a city; nothing is kept yet.
    pub fn new(city_id: &str) -> (r: ChelaileProvider)
        ensures
            r@ == (ChelaileProviderModel { city_id: city_id@, cached_nearby: None }),
    {
        ChelaileProvider { city_id: copy(city_id), cached_nearby: None }
    }

    /// The stops near a position; the reply is kept for [`ChelaileProvider::cached`].
    pub fn nearby_stations(&mut self, resp: NearbyResponse) -> (r: Vec<Station>)
        ensures
            Station::models(r@) == stations_of(resp@.near_lines),
            r@.len() == resp.near_lines@.len(),
            forall|i: int|
                0 <= i < r@.len() ==> ({
                    let (stop, given) = (#[trigger] r@[i], resp.near_lines@[i]);
                    &&& stop.name@ == given.station_name@ && stop.distance_m == given.distance
                    &&& stop.lat == given.lat && stop.lng == given.lng
                    &&& stop.id is Some && stop.id->0@ == given.s_id@
                }),
            final(self)@ == (ChelaileProviderModel { cached_nearby: Some(resp@), ..old(self)@ }),
    {
        let r = read_stations(&resp.near_lines);
        proof {
            assert(Station::models(r@).len() == r@.len());
            assert forall|i: int| 0 <= i < r@.len() implies (#[trigger] r@[i])@ == station_of(resp.near_lines@[i]@) by {
                assert(Station::models(r@)[i] == r@[i]@);
                assert(resp@.near_lines[i] == resp.near_lines@[i]@);
            }
        }
        self.cached_nearby = Some(resp);
        r
    }

    /// The last reply on what is nearby: while there is one, nothing has to be fetched for the lines at
    /// a stop.
    pub fn cached(&self) -> (r: Option<NearbyResponse>)
        ensures
            match (r, self@.cached_nearby) {
                (Some(a), Some(b)) => a@ == b,
                (None, None) => true,
                _ => false,
            },
    {
        match &self.cached_nearby {
            Some(resp) => Some(resp.clone()),
            None => None,
        }
    }

    /// The lines that call at a stop.
    pub fn station_lines(resp: &NearbyResponse, station: &str) -> (r: Vec<LineSummary>)
        ensures
            LineSummary::models(r@) == lines_at(resp@, station@),
            forall|k: int|
                0 <= k < resp.near_lines@.len() && (#[trigger] resp.near_lines@[k]).station_name@ == station@ && (forall|j: int|
                    0 <= j < k ==> (#[trigger] resp.near_lines@[j]).station_name@ != station@) ==> r@.len()
                    == resp.near_lines@[k].lines@.len() && forall|i: int|
                    0 <= i < r@.len() ==> ({
                        let (line, given) = (#[trigger] r@[i], resp.near_lines@[k].lines@[i]);
                        &&& line.name@ == given.name@ && line.direction_id@ == given.line_id@
                        &&& line.endpoints.origin@ == given.start_sn@ && line.endpoints.terminus@ == given.end_sn@
                        &&& given.target_station is Some ==> line.station_order == given.target_station->0.order
                        &&& given.target_station is None ==> line.station_order == 0
                    }),
    {
        let ghost list = resp@.near_lines;
        let mut i: usize = 0;
        while i < resp.near_lines.len()
            invariant
                i <= resp.near_lines@.len(),
                list == NearStation::models(resp.near_lines@),
                forall|j: int| 0 <= j < i ==> !is_called(station@)(#[trigger] list[j]),
            decreases resp.near_lines.len() - i,
        {
            let s = &resp.near_lines[i];
            assert(list[i as int] == resp.near_lines@[i as int]@);
            if same(s.station_name.as_str(), station) {
                proof {
                    lemma_first_where(list, is_called(station@), i as int);
                }
                let r = read_summaries(&s.lines);
                proof {
                    assert(LineSummary::models(r@).len() == r@.len());
                    assert forall|k: int| 0 <= k < r@.len() implies (#[trigger] r@[k])@ == summary_of(s.lines@[k]@) by {
                        assert(LineSummary::models(r@)[k] == r@[k]@);
                        assert(NearLine::models(s.lines@)[k] == s.lines@[k]@);
                    }
                    assert forall|k: int|
                        0 <= k < resp.near_lines@.len() && (#[trigger] resp.near_lines@[k]).station_name@ == station@ && (forall|j: int|
                            0 <= j < k ==> (#[trigger] resp.near_lines@[j]).station_name@ != station@) implies k == i by {
                        assert(resp.near_lines@[i as int].station_name@ == station@);
                        if k < i {
                            assert(!is_called(station@)(list[k]));
                            assert(list[k] == resp.near_lines@[k]@);
                        }
                    }
                }
                return r;
            }
            i += 1;
        }
        proof {
            lemma_first_where(list, is_called(station@), i as int);
        }
        let none: Vec<LineSummary> = Vec::new();
        assert(LineSummary::models(none@) =~= Seq::<LineSummaryModel>::empty());
        assert forall|k: int| 0 <= k < resp.near_lines@.len() implies (#[trigger] resp.near_lines@[k]).station_name@ != station@ by {
            assert(!is_called(station@)(list[k]));
            assert(list[k] == resp.near_lines@[k]@);
        }
        none
    }

    /// A line with its stops.
    pub fn line_detail(resp: &RouteReply, key: &str) -> (r: LineDetail)
        ensures
            r@ == line_of(resp@, key@),
            r.direction_id@ == key@,
            resp.line is Some ==> r.name@ == resp.line->0.line_no@,
            resp.line is Some ==> r@.meta.first_service == service_time(resp.line->0.first_time@) && r@.meta.last_service == service_time(
                resp.line->0.last_time@,
            ),
            resp.line is Some && resp.line->0.price@.len() > 0 ==> r@.meta.fare == FareModel::Text(resp.line->0.price@),
            resp.line is Some && resp.line->0.company@.len() > 0 ==> opt_view(r.meta.company) == Some(resp.line->0.company@),
            resp.stations@.len() > 0 ==> r@.topology.start == terminal_of(resp.stations@[0].station_name@) && r@.topology.end == terminal_of(
                resp.stations@[resp.stations@.len() - 1].station_name@,
            ),
            r.topology.stations@.len() == resp.stations@.len(),
            forall|i: int|
                0 <= i < resp.stations@.len() ==> ({
                    let (stop, given) = (#[trigger] r.topology.stations@[i], resp.stations@[i]);
                    &&& stop.name@ == given.station_name@ && stop.order == given.order
                    &&& stop.lat == given.lat && stop.lng == given.lng
                    &&& stop.status is Normal
                }),
    {
        let n: usize = resp.stations.len();
        assert(resp@.stations.len() == n);
        assert(n > 0 ==> resp@.stations[0] == resp.stations@[0]@ && resp@.stations[n - 1] == resp.stations@[n - 1]@);
        let start = name_of_stop(&resp.stations, 0);
        let end = if n > 0 {
            name_of_stop(&resp.stations, n - 1)
        } else {
            String::new()
        };
        let (name, meta) = match &resp.line {
            Some(l) => {
                let fare = match not_empty(l.price.as_str()) {
                    Some(price) => Fare::Text(price),
                    None => Fare::Unknown,
                };
                (
                    l.line_no.clone(),
                    LineMeta {
                        first_service: ServiceTime::parse(l.first_time.as_str()),
                        last_service: ServiceTime::parse(l.last_time.as_str()),
                        fare: fare,
                        company: not_empty(l.company.as_str()),
                        contact: ContactInfo::Unknown,
                        notes: None,
                    },
                )
            },
            None => (
                String::new(),
                LineMeta {
                    first_service: None,
                    last_service: None,
                    fare: Fare::Unknown,
                    company: None,
                    contact: ContactInfo::Unknown,
                    notes: None,
                },
            ),
        };
        let points: Vec<GeoPoint> = Vec::new();
        let stops = read_stops(&resp.stations);
        proof {
            assert(LineStop::models(stops@).len() == stops@.len());
            assert forall|i: int| 0 <= i < stops@.len() implies (#[trigger] stops@[i])@ == stop_of(resp.stations@[i]@) by {
                assert(LineStop::models(stops@)[i] == stops@[i]@);
                assert(RouteStop::models(resp.stations@)[i] == resp.stations@[i]@);
            }
        }
        LineDetail {
            id: Some(copy(key)),
            name: name,
            direction_id: copy(key),
            reverse_id: ChelaileProvider::make_reverse_id(key),
            topology: RouteTopology {
                start: Terminal::named(start.as_str()),
                end: Terminal::named(end.as_str()),
                stations: stops,
                track_points: points,
            },
            meta: meta,
        }
    }

    /// What a request for the live data of a line names: the stop and the one behind it, by their names.
    pub fn realtime_query(route: &RouteReply, key: &str, target_order: u32) -> (r: RealtimeQuery)
        ensures
            r@ == query_of(route@, key@, target_order),
            1 <= target_order <= route.stations@.len() ==> r.station_name@ == route.stations@[target_order - 1].station_name@,
            1 <= target_order < route.stations@.len() ==> r.next_station_name@ == route.stations@[target_order as int].station_name@,
            route.line is Some ==> r.line_name@ == route.line->0.line_no@,
    {
        let at: usize = if target_order > 0 {
            (target_order - 1) as usize
        } else {
            0
        };
        let name = match &route.line {
            Some(l) => l.line_no.clone(),
            None => String::new(),
        };
        assert(route@.stations.len() == route.stations@.len());
        assert(at < route.stations@.len() ==> route@.stations[at as int] == route.stations@[at as int]@);
        assert(at + 1 < route.stations@.len() ==> route@.stations[at + 1] == route.stations@[at + 1]@);
        RealtimeQuery {
            line_name: name,
            direction: ChelaileProvider::extract_direction_from_key(key),
            station_name: name_of_stop(&route.stations, at),
            next_station_name: name_of_stop(&route.stations, at + 1),
        }
    }

    /// The live data of a line.
    pub fn realtime(buses: &Vec<Vehicle>, target_order: u32) -> (r: RealTimeData)
        ensures
            r@ == realtime_of(Vehicle::models(buses@), target_order),
            r.buses@.len() == buses@.len(),
            forall|i: int|
                0 <= i < buses@.len() ==> ({
                    let (bus, given) = (#[trigger] r.buses@[i], buses@[i]);
                    &&& bus.is_arriving <==> given.state@ == "0"@
                    &&& bus.bus_id@ == given.bus_id@ && bus.station_index == given.order
                    &&& bus.lat == given.lat && bus.lng == given.lng
                    &&& bus.travel_time_secs == given.travel_time
                    &&& bus.distance_to_station == Some(given.distance) && bus.distance_shown_m == Some(given.shown_m)
                    &&& bus.stop_distances_m@ == given.stop_distances_m@
                    &&& bus.state_description is None <==> given.time_str@.len() == 0
                    &&& bus.state_description is Some ==> bus.state_description->0@ == given.time_str@
                }),
    {
        let arrivals: Vec<StationArrival> = Vec::new();
        let segments: Vec<RouteSegment> = Vec::new();
        assert(StationArrival::models(arrivals@) =~= Seq::<StationArrivalModel>::empty());
        let read = read_buses(buses);
        proof {
            let given = Vehicle::models(buses@);
            assert(BusPosition::models(read@).len() == read@.len());
            assert forall|i: int| 0 <= i < buses@.len() implies (#[trigger] read@[i])@ == bus_of(buses@[i]@) by {
                assert(BusPosition::models(read@)[i] == read@[i]@);
                assert(given[i] == buses@[i]@);
            }
        }
        RealTimeData {
            run_state: infer_realtime_run_state(buses),
            plan_time: None,
            buses: read,
            station_arrivals: arrivals,
            segments: segments,
            arrival_estimates: read_estimates(buses, target_order),
        }
    }

    /// The lines of a city.
    pub fn all_lines(all: &Vec<ListedLine>) -> (r: Vec<BusRoute>)
        ensures
            BusRoute::models(r@) == routes_of(ListedLine::models(all@)),
            r@.len() == all@.len(),
            forall|i: int|
                0 <= i < r@.len() ==> ({
                    let (line, given) = (#[trigger] r@[i], all@[i]);
                    &&& line.name@ == given.line_name@ && line.direction_id@ == given.line_id@
                    &&& line.endpoints.origin@ == given.start_stop_name@ && line.endpoints.terminus@ == given.end_stop_name@
                }),
    {
        let r = read_routes(all);
        proof {
            assert(BusRoute::models(r@).len() == r@.len());
            assert forall|i: int| 0 <= i < r@.len() implies (#[trigger] r@[i])@ == route_of(all@[i]@) by {
                assert(BusRoute::models(r@)[i] == r@[i]@);
                assert(ListedLine::models(all@)[i] == all@[i]@);
            }
        }
        r
    }

    /// The direction that an id ends with.
    pub fn extract_direction_from_key(key: &str) -> (r: String)
        ensures
            r@ == direction_of(key@),
    {
        let chars = chars_of(key);
        let n: usize = chars.len();
        match rfind_char(&chars, '-') {
            Some(pos) => {
                let suffix = text_of(&chars, pos + 1, n);
                assert(suffix@ =~= key@.skip(pos + 1));
                if n - pos - 1 > 2 || n == pos + 1 {
                    return String::new();
                }
                let mut i: usize = pos + 1;
                while i < n
                    invariant
                        pos < i <= n,
                        n == chars@.len(),
                        chars@ == key@,
                        pos == last_of(key@, '-'),
                        suffix@ == key@.skip(pos + 1),
                        forall|j: int| 0 <= j < i - pos - 1 ==> #[trigger] crate::text::is_digit(suffix@[j]),
                    decreases n - i,
                {
                    assert(suffix@[i - pos - 1] == chars@[i as int]);
                    if !digit(chars[i]) {
                        return String::new();
                    }
                    i += 1;
                }
                assert(all_digits(suffix@));
                suffix
            },
            None => String::new(),
        }
    }

    /// The id of the other direction.
    pub fn make_reverse_id(key: &str) -> (r: Option<String>)
        ensures
            opt_view(r) == reverse_of(key@),
    {
        let chars = chars_of(key);
        let n: usize = chars.len();
        match rfind_char(&chars, '-') {
            Some(pos) => {
                let suffix = text_of(&chars, pos + 1, n);
                let mut before = text_of(&chars, 0, pos + 1);
                assert(suffix@ =~= key@.skip(pos + 1));
                assert(before@ =~= key@.take(pos + 1));
                if same(suffix.as_str(), "0") {
                    before.append("1");
                    Some(before)
                } else if same(suffix.as_str(), "1") {
                    before.append("0");
                    Some(before)
                } else {
                    None
                }
            },
            None => None,
        }
    }
}

/// Turning round twice leads back to the id one came from.
pub proof fn law_reverse_of_reverse(key: Seq<char>)
    requires
        reverse_of(key) is Some,
    ensures
        reverse_of(reverse_of(key)->0) == Some(key),
{
    reveal_strlit("0");
    reveal_strlit("1");
    let at = last_of(key, '-');
    let back = reverse_of(key)->0;
    crate::text::lemma_last_of_is(key, '-');
    assert forall|j: int| at < j < back.len() implies #[trigger] back[j] != '-' by {
        assert(j == at + 1);
    }
    crate::text::lemma_last_of(back, '-', at);
    assert(back.take(at + 1) =~= key.take(at + 1));
    if key.skip(at + 1) == "0"@ {
        assert(back.skip(at + 1) =~= "1"@);
        assert("0"@[0] == '0' && "1"@[0] == '1');
        assert(key =~= key.take(at + 1) + "0"@);
    } else {
        assert(back.skip(at + 1) =~= "0"@);
        assert(key =~= key.take(at + 1) + "1"@);
    }
}

/// An arrival in words is read: the stops in front of the word for stops, the minutes in front of the word for
/// minutes, the metres as they are given.
pub proof fn law_arrival_is_read(
    text: Seq<char>,
    state: i32,
    metres: u32,
    before: Seq<char>,
    stops: nat,
    after: Seq<char>,
)
    requires
        text == before + dec(stops) + seq!['站'] + after,
        stops <= u32::MAX,
        forall|i: int| 0 <= i < before.len() ==> #[trigger] before[i] != '站',
        before.len() > 0 ==> !is_digit(before.last()),
        trim(text) == text,
        state != -3 && state != -1,
        !(has(text, "末班时间已过"@)) && !(has(text, "等待发车"@)) && !(has(text, "未发车"@)),
        !(has(text, "即将到站"@)) && !(has(text, "进站中"@)) && !(has(text, "已到站"@)),
    ensures
        match arrival_of(text, state, metres) {
            ArrivalEstimate::Approaching { stations_away, minutes_away, distance_m } => {
                &&& stations_away == stops
                &&& distance_m == if metres > 0 {
                    Some(metres)
                } else {
                    None
                }
                &&& (has(text, "小于"@) || has(text, "不到"@)) ==> minutes_away == Some(0u32)
                &&& forall|a: Seq<char>, n: nat, b: Seq<char>|
                    !(has(text, "小于"@)) && !(has(text, "不到"@)) && n <= u32::MAX && text == #[trigger] (a + dec(n) + seq!['分'] + b) && (
                    forall|i: int| 0 <= i < a.len() ==> #[trigger] a[i] != '分') && (a.len() > 0 ==> !is_digit(a.last()))
                        ==> minutes_away == Some(n as u32)
            },
            _ => false,
        },
{
    law_number_is_read_before_its_unit(before, stops, '站', after);
    assert(text.len() > 0);
    assert forall|a: Seq<char>, n: nat, b: Seq<char>|
        !(has(text, "小于"@)) && !(has(text, "不到"@)) && n <= u32::MAX && text == #[trigger] (a + dec(n) + seq!['分'] + b) && (forall|
            i: int,
        |
            0 <= i < a.len() ==> #[trigger] a[i] != '分') && (a.len() > 0 ==> !is_digit(a.last())) implies number_before(text, '分')
        == Some(n) by {
        law_number_is_read_before_its_unit(a, n, '分', b);
    }
}

/// A vehicle that is pulling in is said to arrive, and a line whose last vehicle is gone or that has not begun has
/// no service, whatever else the source says.
pub proof fn law_arrival_words_are_known(text: Seq<char>, state: i32, metres: u32)
    ensures
        state == -3 || state == -1 || has(trim(text), "末班时间已过"@) || has(trim(text), "等待发车"@) || has(trim(text), "未发车"@)
            ==> arrival_of(text, state, metres) is NoService,
        state != -3 && state != -1 && !(has(trim(text), "末班时间已过"@)) && !(has(trim(text), "等待发车"@)) && !(has(trim(text), "未发车"@))
            && trim(text).len() > 0 && (has(trim(text), "即将到站"@) || has(trim(text), "进站中"@) || has(trim(text), "已到站"@))
            ==> arrival_of(text, state, metres) is Arriving,
        trim(text).len() == 0 ==> !(arrival_of(text, state, metres) is Approaching) && !(arrival_of(text, state, metres) is Arriving),
{
}

proof fn lemma_estimates(buses: Seq<VehicleModel>, target_order: u32, i: int)
    requires
        0 <= i < buses.len(),
        buses[i].travel_time is Some,
        buses[i].order < target_order,
    ensures
        exists|k: int|
            0 <= k < estimates_of(buses, target_order).len() && (#[trigger] estimates_of(buses, target_order)[k]) == told_of(
                buses[i],
                target_order,
            ),
    decreases buses.len(),
{
    let all = estimates_of(buses, target_order);
    if i == buses.len() - 1 {
        assert(all[all.len() - 1] == told_of(buses[i], target_order));
    } else {
        let front = buses.drop_last();
        lemma_estimates(front, target_order, i);
        let before = estimates_of(front, target_order);
        let k = choose|k: int| 0 <= k < before.len() && #[trigger] before[k] == told_of(front[i], target_order);
        assert(all[k] == told_of(buses[i], target_order));
    }
}

spec fn told_of(b: VehicleModel, target_order: u32) -> ArrivalDetail {
    ArrivalDetail {
        stations_away: (target_order - b.order) as u32,
        minutes_away: if b.travel_time->0 / 60 > 1 {
            b.travel_time->0 / 60
        } else {
            1
        },
        distance_m: b.metres,
    }
}

proof fn lemma_estimates_are_of_vehicles(buses: Seq<VehicleModel>, target_order: u32, k: int) -> (i: int)
    requires
        0 <= k < estimates_of(buses, target_order).len(),
    ensures
        0 <= i < buses.len(),
        buses[i].travel_time is Some,
        buses[i].order < target_order,
        estimates_of(buses, target_order)[k] == told_of(buses[i], target_order),
    decreases buses.len(),
{
    let front = buses.drop_last();
    let before = estimates_of(front, target_order);
    if k < before.len() {
        let i = lemma_estimates_are_of_vehicles(front, target_order, k);
        assert(front[i] == buses[i]);
        i
    } else {
        buses.len() - 1
    }
}

/// An estimate is that of a vehicle: the stops between it and the boarding stop, the whole minutes of its time but
/// one at least, and its distance.
pub open spec fn is_estimate_of(e: ArrivalDetail, b: VehicleModel, target_order: u32) -> bool {
    &&& b.order + e.stations_away == target_order && e.stations_away > 0
    &&& e.distance_m == b.metres
    &&& match b.travel_time {
        Some(secs) => e.minutes_away >= 1 && (secs < 60 ==> e.minutes_away == 1) && (secs >= 60 ==> 60 * e.minutes_away <= secs < 60 * (
        e.minutes_away + 1)),
        None => false,
    }
}

/// There is an estimate for every vehicle before the boarding stop whose time is known.
pub proof fn law_vehicle_before_the_stop_is_estimated(buses: Seq<VehicleModel>, target_order: u32, i: int) -> (j: int)
    requires
        0 <= i < buses.len(),
        buses[i].travel_time is Some,
        buses[i].order < target_order,
    ensures
        0 <= j < realtime_of(buses, target_order).arrival_estimates.len(),
        is_estimate_of(realtime_of(buses, target_order).arrival_estimates[j], buses[i], target_order),
{
    let all = estimates_of(buses, target_order);
    lemma_estimates(buses, target_order, i);
    choose|j: int| 0 <= j < all.len() && #[trigger] all[j] == told_of(buses[i], target_order)
}

/// Every estimate is that of a vehicle before the boarding stop.
pub proof fn law_estimate_is_of_a_vehicle(buses: Seq<VehicleModel>, target_order: u32, k: int) -> (j: int)
    requires
        0 <= k < realtime_of(buses, target_order).arrival_estimates.len(),
    ensures
        0 <= j < buses.len(),
        is_estimate_of(realtime_of(buses, target_order).arrival_estimates[k], buses[j], target_order),
{
    lemma_estimates_are_of_vehicles(buses, target_order, k)
}

/// A line does not run where all its vehicles wait, has stopped where all say so, and runs as soon as one says
/// neither; without a vehicle there is no live data.
pub proof fn law_run_state_is_what_all_say(buses: Seq<VehicleModel>, target_order: u32, i: int)
    ensures
        ({
            let state = realtime_of(buses, target_order).run_state;
            &&& buses.len() == 0 <==> state is NoRealtime
            &&& 0 <= i < buses.len() && !(has(buses[i].time_str, "未发车"@)) && !(has(buses[i].time_str, "等待发车"@)) && !(has(
                buses[i].time_str,
                "停运"@,
            )) && !(has(buses[i].time_str, "收班"@)) ==> state is Running
            &&& buses.len() > 0 && (forall|j: int|
                0 <= j < buses.len() ==> has((#[trigger] buses[j]).time_str, "未发车"@) || has(buses[j].time_str, "等待发车"@))
                ==> state is NotOperating
            &&& buses.len() > 0 && state is Stopped ==> has(buses[0].time_str, "停运"@) || has(buses[0].time_str, "收班"@)
        }),
{
    if 0 <= i < buses.len() {
        assert(buses[i].time_str == buses[i].time_str);
    }
    if buses.len() > 0 {
        let first = buses[0];
        assert(all_say(buses, "停运"@, "收班"@) ==> has_any(first.time_str, "停运"@, "收班"@));
    }
}

/// Each vehicle of the live data is the one that the source gives at its place: arriving exactly where its state is zero,
/// at its stop and its position, with its number and its time.
pub proof fn law_vehicles_are_as_given(buses: Seq<VehicleModel>, target_order: u32, i: int)
    requires
        0 <= i < buses.len(),
    ensures
        ({
            let bus = realtime_of(buses, target_order).buses[i];
            &&& realtime_of(buses, target_order).buses.len() == buses.len()
            &&& bus.is_arriving <==> buses[i].state == "0"@
            &&& bus.bus_id == buses[i].bus_id && bus.station_index == buses[i].order
            &&& bus.lat == buses[i].lat && bus.lng == buses[i].lng
            &&& bus.travel_time_secs == buses[i].travel_time && bus.distance_to_station == Some(buses[i].distance)
        }),
{
}

} // verus!
