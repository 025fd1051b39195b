//! The shared data model: lines, stops, vehicles and arrivals, as the data sources deliver them.
//!
//! A floating-point number is carried by its bits ([`Double`]): the library never computes with
//! one, it only tells placeholder coordinates from real ones.
use crate::text::{blank, copy, is_blank, opt_view};
use vstd::prelude::*;

verus! {

/// An IEEE-754 double-precision number, by its bits.
#[derive(Debug, Clone, Copy, PartialEq, Eq, Structural)]
pub struct Double {
    pub bits: u64,
}

/// The sign bit set aside: the bits of the absolute value.
pub open spec fn magnitude(x: Double) -> u64 {
    x.bits & 0x7fff_ffff_ffff_ffff
}

impl Double {
    /// Zero, of either sign.
    pub open spec fn is_zero(self) -> bool {
        magnitude(self) == 0
    }

    /// Neither infinite nor not a number.
    pub open spec fn is_finite(self) -> bool {
        magnitude(self) < 0x7ff0_0000_0000_0000
    }

    /// At most 90 in absolute value (and so neither infinite nor not a number).
    pub open spec fn within_90(self) -> bool {
        magnitude(self) <= 0x4056_8000_0000_0000
    }

    /// At most 180 in absolute value (and so neither infinite nor not a number).
    pub open spec fn within_180(self) -> bool {
        magnitude(self) <= 0x4066_8000_0000_0000
    }
}

/// Whether a number is neither infinite nor not a number.
pub fn finite(x: Double) -> (r: bool)
    ensures
        r == x.is_finite(),
{
    (x.bits & 0x7fff_ffff_ffff_ffff) < 0x7ff0_0000_0000_0000
}

/// A latitude and a longitude on the globe, 0/0 included.
pub open spec fn on_globe(lat: Double, lng: Double) -> bool {
    lat.within_90() && lng.within_180()
}

/// A latitude and a longitude on the globe that are not the placeholder 0/0.
pub open spec fn real_point(lat: Double, lng: Double) -> bool {
    on_globe(lat, lng) && !(lat.is_zero() && lng.is_zero())
}

/// Whether the pair is a latitude and a longitude.
pub fn in_range(lat: Double, lng: Double) -> (r: bool)
    ensures
        r == on_globe(lat, lng),
{
    (lat.bits & 0x7fff_ffff_ffff_ffff) <= 0x4056_8000_0000_0000 && (lng.bits
        & 0x7fff_ffff_ffff_ffff) <= 0x4066_8000_0000_0000
}

/// Whether the pair is a position: 0/0 and values out of range stand for missing data.
pub fn valid_point(lat: Double, lng: Double) -> (r: bool)
    ensures
        r == real_point(lat, lng),
{
    in_range(lat, lng) && !((lat.bits & 0x7fff_ffff_ffff_ffff) == 0 && (lng.bits
        & 0x7fff_ffff_ffff_ffff) == 0)
}

/// Whether a line is running.
#[derive(Debug, Clone, Copy, PartialEq, Eq, Structural)]
pub enum RunState {
    Running,
    NotOperating,
    Stopped,
    NoRealtime,
}

/// How full a vehicle is.
#[derive(Debug, Clone, Copy, PartialEq, Eq, Structural)]
pub enum CrowdLevel {
    Spacious,
    Normal,
    Crowded,
    Full,
    Unknown,
}

/// How the traffic flows on a stretch of road.
#[derive(Debug, Clone, Copy, PartialEq, Eq, Structural)]
pub enum CongestionLevel {
    Smooth,
    Slow,
    Congested,
    Unknown,
}

/// How a stop is served.
#[derive(Debug, Clone, Copy, PartialEq, Eq, Structural)]
pub enum StopStatus {
    Normal,
    NotStopping,
    BoardOnly,
    AlightOnly,
    Temporary,
    OnDemand,
    Express,
}

/// When the next vehicle of a line comes to a stop.
#[derive(Debug, Clone, Copy, PartialEq, Eq, Structural)]
pub enum ArrivalEstimate {
    Arriving,
    Approaching { stations_away: u32, minutes_away: Option<u32>, distance_m: Option<u32> },
    NoService,
    Unknown,
}

/// The order of arrivals, soonest first: arriving, then by stops away, then no estimate, then no
/// service.
pub open spec fn proximity(arrival: ArrivalEstimate) -> nat {
    match arrival {
        ArrivalEstimate::Arriving => 0,
        ArrivalEstimate::Approaching { stations_away, .. } => 1 + stations_away as nat,
        ArrivalEstimate::Unknown => 0x1_0000_0001,
        ArrivalEstimate::NoService => 0x1_0000_0002,
    }
}

impl ArrivalEstimate {
    /// The place of this arrival in the order of arrivals.
    pub fn proximity_score(&self) -> (r: u64)
        ensures
            r == proximity(*self),
    {
        match self {
            ArrivalEstimate::Arriving => 0,
            ArrivalEstimate::Approaching { stations_away, .. } => 1 + *stations_away as u64,
            ArrivalEstimate::Unknown => 0x1_0000_0001,
            ArrivalEstimate::NoService => 0x1_0000_0002,
        }
    }
}

/// An estimate that is tied to no particular vehicle.
#[derive(Debug, Clone, Copy, PartialEq, Eq, Structural)]
pub struct ArrivalDetail {
    pub stations_away: u32,
    pub minutes_away: u32,
    pub distance_m: u32,
}

/// The stretch of road between two stops.
#[derive(Debug, Clone, Copy, PartialEq, Eq, Structural)]
pub struct RouteSegment {
    /// Metres.
    pub distance: Option<Double>,
    /// Kilometres per hour.
    pub speed: Option<Double>,
    pub congestion: CongestionLevel,
}

/// A position.
#[derive(Debug, Clone, Copy, PartialEq, Eq, Structural)]
pub struct GeoPoint {
    pub lat: Double,
    pub lng: Double,
}

/// A stop of a line.
#[derive(Debug)]
pub struct LineStop {
    pub id: Option<String>,
    pub name: String,
    pub alias: Option<String>,
    /// Counted from 1 along the line.
    pub order: u32,
    pub lat: Double,
    pub lng: Double,
    pub status: StopStatus,
    pub track_index: Option<u32>,
}

/// What a [`LineStop`] holds.
#[verifier::ext_equal]
pub struct LineStopModel {
    pub id: Option<Seq<char>>,
    pub name: Seq<char>,
    pub alias: Option<Seq<char>>,
    pub order: u32,
    pub lat: Double,
    pub lng: Double,
    pub status: StopStatus,
    pub track_index: Option<u32>,
}

impl View for LineStop {
    type V = LineStopModel;

    open spec fn view(&self) -> LineStopModel {
        LineStopModel {
            id: opt_view(self.id),
            name: self.name@,
            alias: opt_view(self.alias),
            order: self.order,
            lat: self.lat,
            lng: self.lng,
            status: self.status,
            track_index: self.track_index,
        }
    }
}

impl LineStop {
    /// What a list of [`LineStop`] holds.
    pub open spec fn models(list: Seq<LineStop>) -> Seq<LineStopModel> {
        list.map_values(|x: LineStop| x@)
    }
}

impl Clone for LineStop {
    fn clone(&self) -> (r: Self)
        ensures
            r@ == self@,
    {
        let r = LineStop {
            id: self.id.clone(),
            name: self.name.clone(),
            alias: self.alias.clone(),
            order: self.order,
            lat: self.lat,
            lng: self.lng,
            status: self.status,
            track_index: self.track_index,
        };
        r
    }
}

/// A vehicle on its way.
#[derive(Debug)]
pub struct BusPosition {
    pub bus_id: String,
    /// The `order` of the stop that the vehicle is arriving at or has left last.
    pub station_index: u32,
    pub is_arriving: bool,
    pub lat: Option<Double>,
    pub lng: Option<Double>,
    pub angle: Option<Double>,
    /// What the source calls the distance, in metres; to which stop differs by source.
    pub distance_to_station: Option<Double>,
    /// The same as it is shown, rounded to whole metres.
    pub distance_shown_m: Option<i64>,
    /// Metres as the crow flies to each stop of the line, in the order of the stops.
    pub stop_distances_m: Vec<u32>,
    pub travel_time_secs: Option<u32>,
    pub station_name: Option<String>,
    pub crowd_status: CrowdLevel,
    pub track_segment_index: Option<i32>,
    pub state_description: Option<String>,
}

/// What a [`BusPosition`] holds.
#[verifier::ext_equal]
pub struct BusPositionModel {
    pub bus_id: Seq<char>,
    pub station_index: u32,
    pub is_arriving: bool,
    pub lat: Option<Double>,
    pub lng: Option<Double>,
    pub angle: Option<Double>,
    pub distance_to_station: Option<Double>,
    pub distance_shown_m: Option<i64>,
    pub stop_distances_m: Seq<u32>,
    pub travel_time_secs: Option<u32>,
    pub station_name: Option<Seq<char>>,
    pub crowd_status: CrowdLevel,
    pub track_segment_index: Option<i32>,
    pub state_description: Option<Seq<char>>,
}

impl View for BusPosition {
    type V = BusPositionModel;

    open spec fn view(&self) -> BusPositionModel {
        BusPositionModel {
            bus_id: self.bus_id@,
            station_index: self.station_index,
            is_arriving: self.is_arriving,
            lat: self.lat,
            lng: self.lng,
            angle: self.angle,
            distance_to_station: self.distance_to_station,
            distance_shown_m: self.distance_shown_m,
            stop_distances_m: self.stop_distances_m@,
            travel_time_secs: self.travel_time_secs,
            station_name: opt_view(self.station_name),
            crowd_status: self.crowd_status,
            track_segment_index: self.track_segment_index,
            state_description: opt_view(self.state_description),
        }
    }
}

impl BusPosition {
    /// What a list of [`BusPosition`] holds.
    pub open spec fn models(list: Seq<BusPosition>) -> Seq<BusPositionModel> {
        list.map_values(|x: BusPosition| x@)
    }
}

impl Clone for BusPosition {
    fn clone(&self) -> (r: Self)
        ensures
            r@ == self@,
    {
        let r = BusPosition {
            bus_id: self.bus_id.clone(),
            station_index: self.station_index,
            is_arriving: self.is_arriving,
            lat: self.lat,
            lng: self.lng,
            angle: self.angle,
            distance_to_station: self.distance_to_station,
            distance_shown_m: self.distance_shown_m,
            stop_distances_m: self.stop_distances_m.clone(),
            travel_time_secs: self.travel_time_secs,
            station_name: self.station_name.clone(),
            crowd_status: self.crowd_status,
            track_segment_index: self.track_segment_index,
            state_description: self.state_description.clone(),
        };
        proof {
            assert(r.stop_distances_m@ =~= self.stop_distances_m@);
        }
        r
    }
}

/// How many vehicles are coming to and leaving a stop.
#[derive(Debug)]
pub struct StationArrival {
    pub station_index: u32,
    pub station_name: Option<String>,
    pub arriving_count: u32,
    pub leaving_count: u32,
}

/// What a [`StationArrival`] holds.
#[verifier::ext_equal]
pub struct StationArrivalModel {
    pub station_index: u32,
    pub station_name: Option<Seq<char>>,
    pub arriving_count: u32,
    pub leaving_count: u32,
}

impl View for StationArrival {
    type V = StationArrivalModel;

    open spec fn view(&self) -> StationArrivalModel {
        StationArrivalModel {
            station_index: self.station_index,
            station_name: opt_view(self.station_name),
            arriving_count: self.arriving_count,
            leaving_count: self.leaving_count,
        }
    }
}

impl StationArrival {
    /// What a list of [`StationArrival`] holds.
    pub open spec fn models(list: Seq<StationArrival>) -> Seq<StationArrivalModel> {
        list.map_values(|x: StationArrival| x@)
    }
}

impl Clone for StationArrival {
    fn clone(&self) -> (r: Self)
        ensures
            r@ == self@,
    {
        let r = StationArrival {
            station_index: self.station_index,
            station_name: self.station_name.clone(),
            arriving_count: self.arriving_count,
            leaving_count: self.leaving_count,
        };
        r
    }
}

/// What a source reports about a line at this moment.
#[derive(Debug)]
pub struct RealTimeData {
    pub run_state: RunState,
    pub plan_time: Option<String>,
    pub buses: Vec<BusPosition>,
    pub station_arrivals: Vec<StationArrival>,
    pub segments: Vec<RouteSegment>,
    pub arrival_estimates: Vec<ArrivalDetail>,
}

/// What a [`RealTimeData`] holds.
#[verifier::ext_equal]
pub struct RealTimeDataModel {
    pub run_state: RunState,
    pub plan_time: Option<Seq<char>>,
    pub buses: Seq<BusPositionModel>,
    pub station_arrivals: Seq<StationArrivalModel>,
    pub segments: Seq<RouteSegment>,
    pub arrival_estimates: Seq<ArrivalDetail>,
}

impl View for RealTimeData {
    type V = RealTimeDataModel;

    open spec fn view(&self) -> RealTimeDataModel {
        RealTimeDataModel {
            run_state: self.run_state,
            plan_time: opt_view(self.plan_time),
            buses: BusPosition::models(self.buses@),
            station_arrivals: StationArrival::models(self.station_arrivals@),
            segments: self.segments@,
            arrival_estimates: self.arrival_estimates@,
        }
    }
}

impl Clone for RealTimeData {
    fn clone(&self) -> (r: Self)
        ensures
            r@ == self@,
    {
        let r = RealTimeData {
            run_state: self.run_state,
            plan_time: self.plan_time.clone(),
            buses: self.buses.clone(),
            station_arrivals: self.station_arrivals.clone(),
            segments: self.segments.clone(),
            arrival_estimates: self.arrival_estimates.clone(),
        };
        proof {
            assert(BusPosition::models(r.buses@) =~= BusPosition::models(self.buses@));
            assert(StationArrival::models(r.station_arrivals@) =~= StationArrival::models(self.station_arrivals@));
            assert(r.segments@ =~= self.segments@);
            assert(r.arrival_estimates@ =~= self.arrival_estimates@);
        }
        r
    }
}

/// The first or last stop of a line.
#[derive(Debug)]
pub enum Terminal {
    Named(String),
    Unknown,
}

/// What a [`Terminal`] holds.
#[verifier::ext_equal]
pub enum TerminalModel {
    Named(Seq<char>),
    Unknown,
}

impl View for Terminal {
    type V = TerminalModel;

    open spec fn view(&self) -> TerminalModel {
        match self {
            Terminal::Named(s) => TerminalModel::Named(s@),
            Terminal::Unknown => TerminalModel::Unknown,
        }
    }
}

impl Clone for Terminal {
    fn clone(&self) -> (r: Self)
        ensures
            r@ == self@,
    {
        match self {
            Terminal::Named(s) => Terminal::Named(s.clone()),
            Terminal::Unknown => Terminal::Unknown,
        }
    }
}

/// The terminal that a name stands for: a blank name is none.
pub open spec fn terminal_of(name: Seq<char>) -> TerminalModel {
    if is_blank(name) {
        TerminalModel::Unknown
    } else {
        TerminalModel::Named(name)
    }
}

impl Terminal {
    /// The terminal called `name`.
    pub fn named(name: &str) -> (r: Terminal)
        ensures
            r@ == terminal_of(name@),
    {
        if blank(name) {
            Terminal::Unknown
        } else {
            Terminal::Named(copy(name))
        }
    }

    /// The name, where it is known.
    pub fn as_str(&self) -> (r: Option<&str>)
        ensures
            match (r, self@) {
                (Some(s), TerminalModel::Named(name)) => s@ == name,
                (None, TerminalModel::Unknown) => true,
                _ => false,
            },
    {
        match self {
            Terminal::Named(name) => Some(name.as_str()),
            Terminal::Unknown => None,
        }
    }
}

/// What a ride costs.
#[derive(Debug)]
pub enum Fare {
    Text(String),
    Unknown,
}

/// What a [`Fare`] holds.
#[verifier::ext_equal]
pub enum FareModel {
    Text(Seq<char>),
    Unknown,
}

impl View for Fare {
    type V = FareModel;

    open spec fn view(&self) -> FareModel {
        match self {
            Fare::Text(s) => FareModel::Text(s@),
            Fare::Unknown => FareModel::Unknown,
        }
    }
}

impl Clone for Fare {
    fn clone(&self) -> (r: Self)
        ensures
            r@ == self@,
    {
        match self {
            Fare::Text(s) => Fare::Text(s.clone()),
            Fare::Unknown => Fare::Unknown,
        }
    }
}

/// How to reach the operator.
#[derive(Debug)]
pub enum ContactInfo {
    Phone(String),
    Unknown,
}

/// What a [`ContactInfo`] holds.
#[verifier::ext_equal]
pub enum ContactInfoModel {
    Phone(Seq<char>),
    Unknown,
}

impl View for ContactInfo {
    type V = ContactInfoModel;

    open spec fn view(&self) -> ContactInfoModel {
        match self {
            ContactInfo::Phone(s) => ContactInfoModel::Phone(s@),
            ContactInfo::Unknown => ContactInfoModel::Unknown,
        }
    }
}

impl Clone for ContactInfo {
    fn clone(&self) -> (r: Self)
        ensures
            r@ == self@,
    {
        match self {
            ContactInfo::Phone(s) => ContactInfo::Phone(s.clone()),
            ContactInfo::Unknown => ContactInfo::Unknown,
        }
    }
}

/// A time of day as the timetable writes it.
#[derive(Debug)]
pub struct ServiceTime {
    pub text: String,
}

/// What a [`ServiceTime`] holds.
#[verifier::ext_equal]
pub struct ServiceTimeModel {
    pub text: Seq<char>,
}

impl View for ServiceTime {
    type V = ServiceTimeModel;

    open spec fn view(&self) -> ServiceTimeModel {
        ServiceTimeModel {
            text: self.text@,
        }
    }
}

impl Clone for ServiceTime {
    fn clone(&self) -> (r: Self)
        ensures
            r@ == self@,
    {
        let r = ServiceTime {
            text: self.text.clone(),
        };
        r
    }
}

impl ServiceTime {
    /// The time that `raw` writes: nothing where it is blank.
    pub fn parse(raw: &str) -> (r: Option<ServiceTime>)
        ensures
            match r {
                Some(time) => !is_blank(raw@) && time@.text == crate::text::trim(raw@),
                None => is_blank(raw@),
            },
    {
        if blank(raw) {
            None
        } else {
            Some(ServiceTime { text: crate::text::trimmed(raw) })
        }
    }
}

/// What is known of a line beside its stops.
#[derive(Debug)]
pub struct LineMeta {
    pub first_service: Option<ServiceTime>,
    pub last_service: Option<ServiceTime>,
    pub fare: Fare,
    pub company: Option<String>,
    pub contact: ContactInfo,
    pub notes: Option<String>,
}

/// What a [`LineMeta`] holds.
#[verifier::ext_equal]
pub struct LineMetaModel {
    pub first_service: Option<ServiceTimeModel>,
    pub last_service: Option<ServiceTimeModel>,
    pub fare: FareModel,
    pub company: Option<Seq<char>>,
    pub contact: ContactInfoModel,
    pub notes: Option<Seq<char>>,
}

impl View for LineMeta {
    type V = LineMetaModel;

    open spec fn view(&self) -> LineMetaModel {
        LineMetaModel {
            first_service: (match self.first_service { Some(x) => Some(x@), None => None }),
            last_service: (match self.last_service { Some(x) => Some(x@), None => None }),
            fare: self.fare@,
            company: opt_view(self.company),
            contact: self.contact@,
            notes: opt_view(self.notes),
        }
    }
}

impl Clone for LineMeta {
    fn clone(&self) -> (r: Self)
        ensures
            r@ == self@,
    {
        let r = LineMeta {
            first_service: self.first_service.clone(),
            last_service: self.last_service.clone(),
            fare: self.fare.clone(),
            company: self.company.clone(),
            contact: self.contact.clone(),
            notes: self.notes.clone(),
        };
        r
    }
}

/// The stops of a line and the road between them.
#[derive(Debug)]
pub struct RouteTopology {
    pub start: Terminal,
    pub end: Terminal,
    pub stations: Vec<LineStop>,
    pub track_points: Vec<GeoPoint>,
}

/// What a [`RouteTopology`] holds.
#[verifier::ext_equal]
pub struct RouteTopologyModel {
    pub start: TerminalModel,
    pub end: TerminalModel,
    pub stations: Seq<LineStopModel>,
    pub track_points: Seq<GeoPoint>,
}

impl View for RouteTopology {
    type V = RouteTopologyModel;

    open spec fn view(&self) -> RouteTopologyModel {
        RouteTopologyModel {
            start: self.start@,
            end: self.end@,
            stations: LineStop::models(self.stations@),
            track_points: self.track_points@,
        }
    }
}

impl Clone for RouteTopology {
    fn clone(&self) -> (r: Self)
        ensures
            r@ == self@,
    {
        let r = RouteTopology {
            start: self.start.clone(),
            end: self.end.clone(),
            stations: self.stations.clone(),
            track_points: self.track_points.clone(),
        };
        proof {
            assert(LineStop::models(r.stations@) =~= LineStop::models(self.stations@));
            assert(r.track_points@ =~= self.track_points@);
        }
        r
    }
}

/// A line in one direction.
#[derive(Debug)]
pub struct LineDetail {
    pub id: Option<String>,
    pub name: String,
    pub direction_id: String,
    /// The `direction_id` of the way back, where there is one.
    pub reverse_id: Option<String>,
    pub topology: RouteTopology,
    pub meta: LineMeta,
}

/// What a [`LineDetail`] holds.
#[verifier::ext_equal]
pub struct LineDetailModel {
    pub id: Option<Seq<char>>,
    pub name: Seq<char>,
    pub direction_id: Seq<char>,
    pub reverse_id: Option<Seq<char>>,
    pub topology: RouteTopologyModel,
    pub meta: LineMetaModel,
}

impl View for LineDetail {
    type V = LineDetailModel;

    open spec fn view(&self) -> LineDetailModel {
        LineDetailModel {
            id: opt_view(self.id),
            name: self.name@,
            direction_id: self.direction_id@,
            reverse_id: opt_view(self.reverse_id),
            topology: self.topology@,
            meta: self.meta@,
        }
    }
}

impl Clone for LineDetail {
    fn clone(&self) -> (r: Self)
        ensures
            r@ == self@,
    {
        let r = LineDetail {
            id: self.id.clone(),
            name: self.name.clone(),
            direction_id: self.direction_id.clone(),
            reverse_id: self.reverse_id.clone(),
            topology: self.topology.clone(),
            meta: self.meta.clone(),
        };
        r
    }
}

/// Both ends of a line, as shown.
#[derive(Debug)]
pub struct EndpointsView {
    pub origin: String,
    pub origin_alias: Option<String>,
    pub terminus: String,
    pub terminus_alias: Option<String>,
}

/// What a [`EndpointsView`] holds.
#[verifier::ext_equal]
pub struct EndpointsViewModel {
    pub origin: Seq<char>,
    pub origin_alias: Option<Seq<char>>,
    pub terminus: Seq<char>,
    pub terminus_alias: Option<Seq<char>>,
}

impl View for EndpointsView {
    type V = EndpointsViewModel;

    open spec fn view(&self) -> EndpointsViewModel {
        EndpointsViewModel {
            origin: self.origin@,
            origin_alias: opt_view(self.origin_alias),
            terminus: self.terminus@,
            terminus_alias: opt_view(self.terminus_alias),
        }
    }
}

impl Clone for EndpointsView {
    fn clone(&self) -> (r: Self)
        ensures
            r@ == self@,
    {
        let r = EndpointsView {
            origin: self.origin.clone(),
            origin_alias: self.origin_alias.clone(),
            terminus: self.terminus.clone(),
            terminus_alias: self.terminus_alias.clone(),
        };
        r
    }
}

/// A line in a list of lines.
#[derive(Debug)]
pub struct BusRoute {
    pub id: Option<String>,
    pub name: String,
    pub direction_id: String,
    pub start: Terminal,
    pub end: Terminal,
    pub endpoints: EndpointsView,
    pub company: Option<String>,
}

/// What a [`BusRoute`] holds.
#[verifier::ext_equal]
pub struct BusRouteModel {
    pub id: Option<Seq<char>>,
    pub name: Seq<char>,
    pub direction_id: Seq<char>,
    pub start: TerminalModel,
    pub end: TerminalModel,
    pub endpoints: EndpointsViewModel,
    pub company: Option<Seq<char>>,
}

impl View for BusRoute {
    type V = BusRouteModel;

    open spec fn view(&self) -> BusRouteModel {
        BusRouteModel {
            id: opt_view(self.id),
            name: self.name@,
            direction_id: self.direction_id@,
            start: self.start@,
            end: self.end@,
            endpoints: self.endpoints@,
            company: opt_view(self.company),
        }
    }
}

impl BusRoute {
    /// What a list of [`BusRoute`] holds.
    pub open spec fn models(list: Seq<BusRoute>) -> Seq<BusRouteModel> {
        list.map_values(|x: BusRoute| x@)
    }
}

impl Clone for BusRoute {
    fn clone(&self) -> (r: Self)
        ensures
            r@ == self@,
    {
        let r = BusRoute {
            id: self.id.clone(),
            name: self.name.clone(),
            direction_id: self.direction_id.clone(),
            start: self.start.clone(),
            end: self.end.clone(),
            endpoints: self.endpoints.clone(),
            company: self.company.clone(),
        };
        r
    }
}

/// A line that calls at a stop.
#[derive(Debug)]
pub struct LineSummary {
    pub id: Option<String>,
    pub name: String,
    pub direction_id: String,
    pub endpoints: EndpointsView,
    pub arrival: ArrivalEstimate,
    pub station_order: u32,
    pub run_state: RunState,
}

/// What a [`LineSummary`] holds.
#[verifier::ext_equal]
pub struct LineSummaryModel {
    pub id: Option<Seq<char>>,
    pub name: Seq<char>,
    pub direction_id: Seq<char>,
    pub endpoints: EndpointsViewModel,
    pub arrival: ArrivalEstimate,
    pub station_order: u32,
    pub run_state: RunState,
}

impl View for LineSummary {
    type V = LineSummaryModel;

    open spec fn view(&self) -> LineSummaryModel {
        LineSummaryModel {
            id: opt_view(self.id),
            name: self.name@,
            direction_id: self.direction_id@,
            endpoints: self.endpoints@,
            arrival: self.arrival,
            station_order: self.station_order,
            run_state: self.run_state,
        }
    }
}

impl LineSummary {
    /// What a list of [`LineSummary`] holds.
    pub open spec fn models(list: Seq<LineSummary>) -> Seq<LineSummaryModel> {
        list.map_values(|x: LineSummary| x@)
    }
}

impl Clone for LineSummary {
    fn clone(&self) -> (r: Self)
        ensures
            r@ == self@,
    {
        let r = LineSummary {
            id: self.id.clone(),
            name: self.name.clone(),
            direction_id: self.direction_id.clone(),
            endpoints: self.endpoints.clone(),
            arrival: self.arrival,
            station_order: self.station_order,
            run_state: self.run_state,
        };
        r
    }
}

/// A stop near a position.
#[derive(Debug)]
pub struct Station {
    pub id: Option<String>,
    pub name: String,
    pub alias: Option<String>,
    pub lat: Double,
    pub lng: Double,
    pub distance_m: u32,
    pub same_name_count: u32,
}

/// What a [`Station`] holds.
#[verifier::ext_equal]
pub struct StationModel {
    pub id: Option<Seq<char>>,
    pub name: Seq<char>,
    pub alias: Option<Seq<char>>,
    pub lat: Double,
    pub lng: Double,
    pub distance_m: u32,
    pub same_name_count: u32,
}

impl View for Station {
    type V = StationModel;

    open spec fn view(&self) -> StationModel {
        StationModel {
            id: opt_view(self.id),
            name: self.name@,
            alias: opt_view(self.alias),
            lat: self.lat,
            lng: self.lng,
            distance_m: self.distance_m,
            same_name_count: self.same_name_count,
        }
    }
}

impl Station {
    /// What a list of [`Station`] holds.
    pub open spec fn models(list: Seq<Station>) -> Seq<StationModel> {
        list.map_values(|x: Station| x@)
    }
}

impl Clone for Station {
    fn clone(&self) -> (r: Self)
        ensures
            r@ == self@,
    {
        let r = Station {
            id: self.id.clone(),
            name: self.name.clone(),
            alias: self.alias.clone(),
            lat: self.lat,
            lng: self.lng,
            distance_m: self.distance_m,
            same_name_count: self.same_name_count,
        };
        r
    }
}

/// A city that a data source covers.
#[derive(Debug)]
pub struct City {
    pub name: String,
    pub province: String,
}

/// What a [`City`] holds.
#[verifier::ext_equal]
pub struct CityModel {
    pub name: Seq<char>,
    pub province: Seq<char>,
}

impl View for City {
    type V = CityModel;

    open spec fn view(&self) -> CityModel {
        CityModel {
            name: self.name@,
            province: self.province@,
        }
    }
}

impl Clone for City {
    fn clone(&self) -> (r: Self)
        ensures
            r@ == self@,
    {
        let r = City {
            name: self.name.clone(),
            province: self.province.clone(),
        };
        r
    }
}

/// Ends of a line that are not known.
pub open spec fn no_endpoints() -> EndpointsViewModel {
    EndpointsViewModel { origin: Seq::empty(), origin_alias: None, terminus: Seq::empty(), terminus_alias: None }
}

impl Default for EndpointsView {
    fn default() -> (r: Self)
        ensures
            r@ == no_endpoints(),
    {
        EndpointsView { origin: String::new(), origin_alias: None, terminus: String::new(), terminus_alias: None }
    }
}

impl Default for LineMeta {
    fn default() -> (r: Self)
        ensures
            r@ == (LineMetaModel {
                first_service: None,
                last_service: None,
                fare: FareModel::Unknown,
                company: None,
                contact: ContactInfoModel::Unknown,
                notes: None,
            }),
    {
        LineMeta {
            first_service: None,
            last_service: None,
            fare: Fare::Unknown,
            company: None,
            contact: ContactInfo::Unknown,
            notes: None,
        }
    }
}

} // verus!
