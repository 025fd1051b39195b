//! A simulated source: a handful of lines on which vehicles run by chance.
//!
//! What is drawn, and what is made of the draws, is decided here. Positions and speeds have a
//! fraction: they come in as plain values.
use crate::models::{
    terminal_of, ArrivalDetail, ArrivalEstimate, BusPosition, BusPositionModel, BusRoute, BusRouteModel, CongestionLevel, ContactInfo,
    ContactInfoModel, CrowdLevel, Double, EndpointsView, EndpointsViewModel, Fare, FareModel, GeoPoint, LineDetail, LineDetailModel, LineMeta,
    LineMetaModel, LineStop, LineStopModel, LineSummary, LineSummaryModel, RealTimeData, RealTimeDataModel, RouteSegment, RouteTopology,
    RouteTopologyModel, RunState, ServiceTime, Station, StationArrival, StationArrivalModel, StationModel, StopStatus, Terminal,
};
use crate::provider::mygolbs::service_time;
use crate::seqs::{first_where, lemma_first_where};
use crate::sort::{arranged, key_views, lemma_arranged, lemma_lex_one, order_of, stable_order};
use crate::text::{chars_of, copy, dec, decimal, find_char, first_of, opt_view, parse_u32, read_nat, same, text_of, views};
use vstd::prelude::*;

verus! {

/// The service that the simulation serves.
pub const SERVICE_ID: &'static str = "debug_beijing";

// ─── chance ───

/// The next state of the generator.
pub open spec fn stepped(s: u64) -> u64 {
    let a = s ^ (s << 13u64);
    let b = a ^ (a >> 7u64);
    b ^ (b << 17u64)
}

/// The state of the generator after `n` steps.
pub open spec fn after(s: u64, n: nat) -> u64
    decreases n,
{
    if n == 0 {
        s
    } else {
        stepped(after(s, (n - 1) as nat))
    }
}

/// The number between `min` and `max` that is drawn in state `s`; `min` where there is no room.
pub open spec fn drawn(s: u64, min: u64, max: u64) -> u64 {
    if min >= max {
        min
    } else {
        (min + stepped(s) as int % (max - min + 1)) as u64
    }
}

/// The state after that draw: where there is no room nothing is drawn.
pub open spec fn drawn_state(s: u64, min: u64, max: u64) -> u64 {
    if min >= max {
        s
    } else {
        stepped(s)
    }
}

/// The ten-thousandths that are drawn in state `s`.
pub open spec fn tick_of(s: u64) -> u64 {
    stepped(s) % 10000
}

/// A generator of numbers that look random.
#[derive(Debug)]
pub struct Rng {
    pub state: u64,
}

impl Rng {
    /// A generator that starts at `seed`.
    pub fn new(seed: u64) -> (r: Rng)
        ensures
            r.state == seed,
    {
        Rng { state: seed }
    }

    /// The next number.
    pub fn next(&mut self) -> (r: u64)
        ensures
            r == stepped(old(self).state),
            final(self).state == r,
    {
        let s: u64 = self.state;
        let a: u64 = s ^ (s << 13u64);
        let b: u64 = a ^ (a >> 7u64);
        let c: u64 = b ^ (b << 17u64);
        self.state = c;
        c
    }

    /// A number between `min` and `max`.
    pub fn range(&mut self, min: u64, max: u64) -> (r: u64)
        requires
            max - min < u64::MAX,
        ensures
            r == drawn(old(self).state, min, max),
            final(self).state == drawn_state(old(self).state, min, max),
            min <= max ==> min <= r <= max,
    {
        if min >= max {
            return min;
        }
        let n: u64 = self.next();
        let room: u64 = max - min + 1;
        assert(n as int % room as int == (n % room) as int);
        min + n % room
    }

    /// A number of ten-thousandths.
    pub fn tick(&mut self) -> (r: u64)
        ensures
            r == tick_of(old(self).state),
            final(self).state == stepped(old(self).state),
            r < 10000,
    {
        self.next() % 10000
    }
}

// ─── the simulated lines ───

/// A stop of a simulated line.
#[derive(Debug)]
pub struct SimStop {
    pub id: String,
    pub name: String,
    pub alias: Option<String>,
    pub lat: Double,
    pub lng: Double,
    pub status: StopStatus,
}

/// What a [`SimStop`] holds.
#[verifier::ext_equal]
pub struct SimStopModel {
    pub id: Seq<char>,
    pub name: Seq<char>,
    pub alias: Option<Seq<char>>,
    pub lat: Double,
    pub lng: Double,
    pub status: StopStatus,
}

impl View for SimStop {
    type V = SimStopModel;

    open spec fn view(&self) -> SimStopModel {
        SimStopModel {
            id: self.id@,
            name: self.name@,
            alias: opt_view(self.alias),
            lat: self.lat,
            lng: self.lng,
            status: self.status,
        }
    }
}

impl SimStop {
    /// What a list of [`SimStop`] holds.
    pub open spec fn models(list: Seq<SimStop>) -> Seq<SimStopModel> {
        list.map_values(|x: SimStop| x@)
    }
}

impl Clone for SimStop {
    fn clone(&self) -> (r: Self)
        ensures
            r@ == self@,
    {
        let r = SimStop {
            id: self.id.clone(),
            name: self.name.clone(),
            alias: self.alias.clone(),
            lat: self.lat,
            lng: self.lng,
            status: self.status,
        };
        r
    }
}

/// A simulated line.
#[derive(Debug)]
pub struct SimRoute {
    pub id: String,
    pub name: String,
    pub dir_id: String,
    pub reverse_id: String,
    pub origin: String,
    pub origin_alias: Option<String>,
    pub terminus: String,
    pub terminus_alias: Option<String>,
    pub company: String,
    pub first_service: String,
    pub last_service: String,
    pub fare: String,
    pub contact: String,
    pub notes: Option<String>,
    pub stops: Vec<SimStop>,
}

/// What a [`SimRoute`] holds.
#[verifier::ext_equal]
pub struct SimRouteModel {
    pub id: Seq<char>,
    pub name: Seq<char>,
    pub dir_id: Seq<char>,
    pub reverse_id: Seq<char>,
    pub origin: Seq<char>,
    pub origin_alias: Option<Seq<char>>,
    pub terminus: Seq<char>,
    pub terminus_alias: Option<Seq<char>>,
    pub company: Seq<char>,
    pub first_service: Seq<char>,
    pub last_service: Seq<char>,
    pub fare: Seq<char>,
    pub contact: Seq<char>,
    pub notes: Option<Seq<char>>,
    pub stops: Seq<SimStopModel>,
}

impl View for SimRoute {
    type V = SimRouteModel;

    open spec fn view(&self) -> SimRouteModel {
        SimRouteModel {
            id: self.id@,
            name: self.name@,
            dir_id: self.dir_id@,
            reverse_id: self.reverse_id@,
            origin: self.origin@,
            origin_alias: opt_view(self.origin_alias),
            terminus: self.terminus@,
            terminus_alias: opt_view(self.terminus_alias),
            company: self.company@,
            first_service: self.first_service@,
            last_service: self.last_service@,
            fare: self.fare@,
            contact: self.contact@,
            notes: opt_view(self.notes),
            stops: SimStop::models(self.stops@),
        }
    }
}

impl SimRoute {
    /// What a list of [`SimRoute`] holds.
    pub open spec fn models(list: Seq<SimRoute>) -> Seq<SimRouteModel> {
        list.map_values(|x: SimRoute| x@)
    }
}

/// How the simulation is set. Shares are given in ten-thousandths: something happens where fewer are
/// drawn.
#[derive(Debug, Clone, Copy, PartialEq, Eq, Structural)]
pub struct Levels {
    /// Nothing runs at all.
    pub stopped: bool,
    /// Below this there is no live data.
    pub offline: u64,
    /// Below this a vehicle is full.
    pub full: u64,
    /// Below this it is crowded.
    pub crowded: u64,
    /// Below this it is neither crowded nor empty.
    pub normal: u64,
    /// Below this the road is congested.
    pub congested: u64,
    /// Below this the traffic is slow.
    pub slow: u64,
    /// The fewest vehicles on a line.
    pub min_buses: u64,
    /// The most vehicles on a line.
    pub max_buses: u64,
    /// The most estimates for a stop.
    pub max_estimates: u64,
    /// Minutes from stop to stop on a good day.
    pub minutes_fast: u32,
    /// Minutes from stop to stop on a common day.
    pub minutes_common: u32,
    /// Minutes from stop to stop on a bad day.
    pub minutes_slow: u32,
}

/// The line that goes by that id.
pub open spec fn goes_by(key: Seq<char>) -> spec_fn(SimRouteModel) -> bool {
    |r: SimRouteModel| r.id == key || r.dir_id == key || r.reverse_id == key
}

/// The first line that goes by an id; the first of all where none does.
pub open spec fn route_for(routes: Seq<SimRouteModel>, key: Seq<char>) -> SimRouteModel {
    let at = first_where(routes, goes_by(key));
    if at < routes.len() {
        routes[at]
    } else {
        routes[0]
    }
}

/// The line that goes by an id.
pub fn find_route<'a>(routes: &'a Vec<SimRoute>, key: &str) -> (r: &'a SimRoute)
    requires
        routes@.len() > 0,
    ensures
        r@ == route_for(SimRoute::models(routes@), key@),
        exists|i: int| 0 <= i < routes@.len() && *r == #[trigger] routes@[i],
{
    let ghost list = SimRoute::models(routes@);
    let mut i: usize = 0;
    while i < routes.len()
        invariant
            i <= routes@.len(),
            list == SimRoute::models(routes@),
            forall|j: int| 0 <= j < i ==> !goes_by(key@)(#[trigger] list[j]),
        decreases routes.len() - i,
    {
        let r = &routes[i];
        assert(list[i as int] == routes@[i as int]@);
        if same(r.id.as_str(), key) || same(r.dir_id.as_str(), key) || same(r.reverse_id.as_str(), key) {
            proof {
                lemma_first_where(list, goes_by(key@), i as int);
            }
            return r;
        }
        i += 1;
    }
    proof {
        lemma_first_where(list, goes_by(key@), i as int);
    }
    assert(list[0] == routes@[0]@);
    &routes[0]
}

/// The hour that a time of day begins with.
pub open spec fn hour_of(time: Seq<char>, otherwise: u32) -> u32 {
    match read_nat(time.take(first_of(time, ':')), u32::MAX as nat) {
        Some(n) => n as u32,
        None => otherwise,
    }
}

fn read_hour(time: &str, otherwise: u32) -> (r: u32)
    ensures
        r == hour_of(time@, otherwise),
{
    let chars = chars_of(time);
    let at: usize = find_char(&chars, ':');
    let hour = text_of(&chars, 0, at);
    assert(hour@ =~= time@.take(at as int));
    match parse_u32(hour.as_str()) {
        Some(n) => n,
        None => otherwise,
    }
}

/// Whether a line is running, and the state of the generator behind that: within its hours, unless
/// the data fails.
pub open spec fn run_state_drawn(levels: Levels, route: SimRouteModel, s: u64, now: u64) -> (RunState, u64) {
    let hour = (now / 3600) % 24;
    let first = hour_of(route.first_service, 5);
    let last = hour_of(route.last_service, 23);
    if levels.stopped {
        (RunState::Stopped, s)
    } else if tick_of(s) < levels.offline {
        (RunState::NoRealtime, stepped(s))
    } else if first < last && hour < first {
        (RunState::NotOperating, stepped(s))
    } else if first < last && hour >= last {
        (RunState::Stopped, stepped(s))
    } else {
        (RunState::Running, stepped(s))
    }
}

/// Whether a line is running at the second `now`.
pub fn sim_run_state(levels: &Levels, route: &SimRoute, rng: &mut Rng, now: u64) -> (r: RunState)
    ensures
        (r, final(rng).state) == run_state_drawn(*levels, route@, old(rng).state, now),
{
    if levels.stopped {
        return RunState::Stopped;
    }
    if rng.tick() < levels.offline {
        return RunState::NoRealtime;
    }
    let hour: u64 = (now / 3600) % 24;
    let first: u32 = read_hour(route.first_service.as_str(), 5);
    let last: u32 = read_hour(route.last_service.as_str(), 23);
    if first < last {
        if hour < first as u64 {
            return RunState::NotOperating;
        }
        if hour >= last as u64 {
            return RunState::Stopped;
        }
    }
    RunState::Running
}

/// How full a vehicle is, by the ten-thousandths drawn.
pub open spec fn crowd_of(levels: Levels, tick: u64) -> CrowdLevel {
    if tick < levels.full {
        CrowdLevel::Full
    } else if tick < levels.crowded {
        CrowdLevel::Crowded
    } else if tick < levels.normal {
        CrowdLevel::Normal
    } else {
        CrowdLevel::Spacious
    }
}

fn pick_crowd(levels: &Levels, rng: &mut Rng) -> (r: CrowdLevel)
    ensures
        r == crowd_of(*levels, tick_of(old(rng).state)),
        final(rng).state == stepped(old(rng).state),
{
    let tick: u64 = rng.tick();
    if tick < levels.full {
        CrowdLevel::Full
    } else if tick < levels.crowded {
        CrowdLevel::Crowded
    } else if tick < levels.normal {
        CrowdLevel::Normal
    } else {
        CrowdLevel::Spacious
    }
}

/// How the traffic flows, by the ten-thousandths drawn.
pub open spec fn traffic_of(levels: Levels, tick: u64) -> CongestionLevel {
    if tick < levels.congested {
        CongestionLevel::Congested
    } else if tick < levels.slow {
        CongestionLevel::Slow
    } else {
        CongestionLevel::Smooth
    }
}

fn pick_congestion(levels: &Levels, rng: &mut Rng) -> (r: CongestionLevel)
    ensures
        r == traffic_of(*levels, tick_of(old(rng).state)),
        final(rng).state == stepped(old(rng).state),
{
    let tick: u64 = rng.tick();
    if tick < levels.congested {
        CongestionLevel::Congested
    } else if tick < levels.slow {
        CongestionLevel::Slow
    } else {
        CongestionLevel::Smooth
    }
}

// ─── vehicles ───

/// What chance says of a vehicle.
#[derive(Debug, Clone, Copy, PartialEq, Eq, Structural)]
pub struct BusDraw {
    /// Which of the number plates it has.
    pub plate: usize,
    /// Where it is on its way along the line and back to the start.
    pub phase: u64,
    /// How far it is off to the north.
    pub lat_tick: u64,
    /// How far it is off to the east.
    pub lng_tick: u64,
    /// How fast it is.
    pub speed_tick: u64,
    /// How its heading is off.
    pub angle_tick: u64,
    pub crowd: CrowdLevel,
}

/// Where that puts a vehicle.
#[derive(Debug)]
pub struct Place {
    /// The stop it left last, counted from 0.
    pub station_idx: usize,
    /// It has nearly reached the next one.
    pub is_arriving: bool,
    pub lat: Double,
    pub lng: Double,
    pub angle: Double,
    /// Metres to the next stop.
    pub distance: Double,
    /// The same, rounded to whole metres.
    pub shown_m: i64,
    /// Seconds to the next stop.
    pub travel_secs: u32,
    /// Metres as the crow flies to each stop of the line.
    pub stop_distances_m: Vec<u32>,
}

/// What a [`Place`] holds.
#[verifier::ext_equal]
pub struct PlaceModel {
    pub station_idx: usize,
    pub is_arriving: bool,
    pub lat: Double,
    pub lng: Double,
    pub angle: Double,
    pub distance: Double,
    pub shown_m: i64,
    pub travel_secs: u32,
    pub stop_distances_m: Seq<u32>,
}

impl View for Place {
    type V = PlaceModel;

    open spec fn view(&self) -> PlaceModel {
        PlaceModel {
            station_idx: self.station_idx,
            is_arriving: self.is_arriving,
            lat: self.lat,
            lng: self.lng,
            angle: self.angle,
            distance: self.distance,
            shown_m: self.shown_m,
            travel_secs: self.travel_secs,
            stop_distances_m: self.stop_distances_m@,
        }
    }
}

impl Place {
    /// What a list of [`Place`] holds.
    pub open spec fn models(list: Seq<Place>) -> Seq<PlaceModel> {
        list.map_values(|x: Place| x@)
    }
}

/// What chance says of a stretch of road.
#[derive(Debug, Clone, Copy, PartialEq, Eq, Structural)]
pub struct SegmentDraw {
    pub speed_tick: u64,
    pub congestion: CongestionLevel,
}

/// The plate at `plate`, or the next one that is free; `left` of them are looked at.
pub open spec fn free_plate(used: Seq<BusDraw>, plate: int, plates: int, left: nat) -> int
    decreases left,
{
    if left == 0 || !has_plate(used, plate) {
        plate
    } else {
        free_plate(used, (plate + 1) % plates, plates, (left - 1) as nat)
    }
}

/// One of the vehicles has that plate.
pub open spec fn has_plate(used: Seq<BusDraw>, plate: int) -> bool {
    exists|i: int| 0 <= i < used.len() && (#[trigger] used[i]).plate == plate
}

fn plate_taken(used: &Vec<BusDraw>, plate: usize) -> (r: bool)
    ensures
        r == has_plate(used@, plate as int),
{
    let mut i: usize = 0;
    while i < used.len()
        invariant
            i <= used@.len(),
            forall|j: int| 0 <= j < i ==> (#[trigger] used@[j]).plate != plate,
        decreases used.len() - i,
    {
        if used[i].plate == plate {
            assert(used@[i as int].plate == plate);
            return true;
        }
        i += 1;
    }
    false
}

/// Seconds that a vehicle takes along the line.
pub open spec fn cycle_of(stops: nat) -> int {
    stops as int * 120
}

/// The vehicle that is drawn in state `s`, beside the vehicles `used`.
pub open spec fn bus_drawn(levels: Levels, s: u64, used: Seq<BusDraw>, plates: nat, stops: nat, now: u64) -> BusDraw {
    BusDraw {
        plate: free_plate(used, stepped(s) as int % plates as int, plates as int, plates) as usize,
        phase: ((now + drawn(after(s, 1), 0, cycle_of(stops) as u64)) % cycle_of(stops)) as u64,
        lat_tick: tick_of(after(s, 2)),
        lng_tick: tick_of(after(s, 3)),
        speed_tick: tick_of(after(s, 4)),
        angle_tick: tick_of(after(s, 5)),
        crowd: crowd_of(levels, tick_of(after(s, 6))),
    }
}

/// The first `n` vehicles that are drawn from state `s` on: each takes seven draws.
pub open spec fn buses_drawn(levels: Levels, s: u64, plates: nat, stops: nat, now: u64, n: nat) -> Seq<BusDraw>
    decreases n,
{
    if n == 0 {
        Seq::empty()
    } else {
        let before = buses_drawn(levels, s, plates, stops, now, (n - 1) as nat);
        before.push(bus_drawn(levels, after(s, (7 * (n - 1)) as nat), before, plates, stops, now))
    }
}

/// How many vehicles are drawn in state `s`: no more than there are plates.
pub open spec fn bus_count_drawn(levels: Levels, s: u64, plates: nat) -> nat {
    let n = drawn(s, levels.min_buses, levels.max_buses);
    if n < plates {
        n as nat
    } else {
        plates
    }
}

proof fn lemma_after_sum(s: u64, m: nat, n: nat)
    ensures
        after(after(s, m), n) == after(s, m + n),
    decreases n,
{
    if n > 0 {
        lemma_after_sum(s, m, (n - 1) as nat);
        assert(((m + n) - 1) as nat == m + (n - 1) as nat);
    }
}

fn draw_bus(levels: &Levels, rng: &mut Rng, used: &Vec<BusDraw>, plates: usize, stops: usize, now: u64) -> (r: BusDraw)
    requires
        plates > 0,
        0 < stops,
        now + stops * 120 < u64::MAX,
    ensures
        r == bus_drawn(*levels, old(rng).state, used@, plates as nat, stops as nat, now),
        final(rng).state == after(old(rng).state, 7),
        r.plate < plates,
{
    let ghost s = rng.state;
    reveal_with_fuel(after, 8);
    let first: u64 = rng.next();
    let mut plate: usize = (first % plates as u64) as usize;
    let ghost start = plate as int;
    let mut looked: usize = 0;
    while looked < plates && plate_taken(used, plate)
        invariant
            plate < plates,
            looked <= plates,
            free_plate(used@, start, plates as int, plates as nat) == free_plate(
                used@,
                plate as int,
                plates as int,
                (plates - looked) as nat,
            ),
        decreases plates - looked,
    {
        let ghost last = plate as int;
        plate = if plate + 1 < plates {
            plate + 1
        } else {
            0
        };
        proof {
            if last + 1 < plates {
                vstd::arithmetic::div_mod::lemma_small_mod((last + 1) as nat, plates as nat);
            } else {
                vstd::arithmetic::div_mod::lemma_mod_self_0(plates as int);
            }
            assert((last + 1) % plates as int == plate);
        }
        looked += 1;
    }
    let cycle: u64 = stops as u64 * 120;
    let offset: u64 = rng.range(0, cycle);
    let phase: u64 = (now + offset) % cycle;
    let lat_tick: u64 = rng.tick();
    let lng_tick: u64 = rng.tick();
    let speed_tick: u64 = rng.tick();
    let angle_tick: u64 = rng.tick();
    let crowd = pick_crowd(levels, rng);
    BusDraw {
        plate: plate,
        phase: phase,
        lat_tick: lat_tick,
        lng_tick: lng_tick,
        speed_tick: speed_tick,
        angle_tick: angle_tick,
        crowd: crowd,
    }
}

/// Draws the vehicles of a line with `stops` stops at the second `now`.
pub fn draw_buses(levels: &Levels, rng: &mut Rng, plates: usize, stops: usize, now: u64) -> (r: Vec<BusDraw>)
    requires
        levels.max_buses - levels.min_buses < u64::MAX,
        plates > 0,
        0 < stops,
        now + stops * 120 < u64::MAX,
    ensures
        ({
            let s = old(rng).state;
            let n = bus_count_drawn(*levels, s, plates as nat);
            let t = drawn_state(s, levels.min_buses, levels.max_buses);
            &&& r@ == buses_drawn(*levels, t, plates as nat, stops as nat, now, n)
            &&& final(rng).state == after(t, 7 * n)
        }),
        forall|i: int| 0 <= i < r@.len() ==> (#[trigger] r@[i]).plate < plates,
{
    let ghost s = rng.state;
    let drawn_count: u64 = rng.range(levels.min_buses, levels.max_buses);
    let count: usize = if drawn_count < plates as u64 {
        drawn_count as usize
    } else {
        plates
    };
    let ghost t = rng.state;
    let mut r: Vec<BusDraw> = Vec::new();
    while r.len() < count
        invariant
            r@.len() <= count,
            plates > 0,
            0 < stops,
            now + stops * 120 < u64::MAX,
            r@ == buses_drawn(*levels, t, plates as nat, stops as nat, now, r@.len()),
            rng.state == after(t, 7 * r@.len()),
            forall|i: int| 0 <= i < r@.len() ==> (#[trigger] r@[i]).plate < plates,
        decreases count - r@.len(),
    {
        let ghost n = r@.len();
        let bus = draw_bus(levels, rng, &r, plates, stops, now);
        proof {
            lemma_after_sum(t, 7 * n, 7);
            assert(7 * n + 7 == 7 * (n + 1));
            assert((7 * ((n + 1) - 1)) as nat == 7 * n);
        }
        r.push(bus);
    }
    r
}

/// The last stop that a vehicle can have left, counted from 0.
pub open spec fn start_of(station_idx: usize, stops: nat) -> int {
    if station_idx + 2 > stops {
        stops - 2
    } else {
        station_idx as int
    }
}

/// The last stop that a vehicle can have left, counted from 0.
pub fn start_index(station_idx: usize, stops: usize) -> (r: usize)
    requires
        stops >= 2,
    ensures
        r == start_of(station_idx, stops as nat),
        r + 1 < stops,
{
    if station_idx > stops - 2 {
        stops - 2
    } else {
        station_idx
    }
}

/// What is said of a vehicle on its way to the stop `name`.
pub open spec fn bus_note(name: Seq<char>, is_arriving: bool, travel_secs: u32) -> Seq<char> {
    if is_arriving {
        name + "即将到站"@
    } else if travel_secs < 60 {
        "即将到站"@
    } else {
        "距"@ + name + "还有"@ + dec((travel_secs / 60 + 1) as nat) + "分钟"@
    }
}

fn bus_note_text(name: &str, is_arriving: bool, travel_secs: u32) -> (r: String)
    ensures
        r@ == bus_note(name@, is_arriving, travel_secs),
{
    if is_arriving {
        let mut t = copy(name);
        t.append("即将到站");
        t
    } else if travel_secs < 60 {
        copy("即将到站")
    } else {
        let mut t = copy("距");
        t.append(name);
        t.append("还有");
        t.append(decimal((travel_secs / 60 + 1) as u64).as_str());
        t.append("分钟");
        t
    }
}

/// A vehicle as it is shown.
pub open spec fn bus_placed(stops: Seq<SimStopModel>, plates: Seq<Seq<char>>, draw: BusDraw, place: PlaceModel) -> BusPositionModel {
    let start = start_of(place.station_idx, stops.len());
    let next = stops[start + 1];
    BusPositionModel {
        bus_id: plates[draw.plate as int],
        station_index: (start + 1) as u32,
        is_arriving: place.is_arriving,
        lat: Some(place.lat),
        lng: Some(place.lng),
        angle: Some(place.angle),
        distance_to_station: Some(place.distance),
        distance_shown_m: Some(place.shown_m),
        stop_distances_m: place.stop_distances_m,
        travel_time_secs: Some(place.travel_secs),
        station_name: Some(next.name),
        crowd_status: draw.crowd,
        track_segment_index: Some(start as i32),
        state_description: Some(bus_note(next.name, place.is_arriving, place.travel_secs)),
    }
}

fn place_bus(stops: &Vec<SimStop>, plates: &Vec<String>, draw: &BusDraw, place: &Place) -> (r: BusPosition)
    requires
        2 <= stops@.len() <= i32::MAX,
        draw.plate < plates@.len(),
    ensures
        r@ == bus_placed(SimStop::models(stops@), views(plates@), *draw, place@),
{
    let start: usize = start_index(place.station_idx, stops.len());
    let next = &stops[start + 1];
    assert(SimStop::models(stops@)[start + 1] == next@);
    let r = BusPosition {
        bus_id: plates[draw.plate].clone(),
        station_index: (start + 1) as u32,
        is_arriving: place.is_arriving,
        lat: Some(place.lat),
        lng: Some(place.lng),
        angle: Some(place.angle),
        distance_to_station: Some(place.distance),
        distance_shown_m: Some(place.shown_m),
        stop_distances_m: place.stop_distances_m.clone(),
        travel_time_secs: Some(place.travel_secs),
        station_name: Some(next.name.clone()),
        crowd_status: draw.crowd,
        track_segment_index: Some(start as i32),
        state_description: Some(bus_note_text(next.name.as_str(), place.is_arriving, place.travel_secs)),
    };
    assert(r.stop_distances_m@ =~= place.stop_distances_m@);
    r
}

/// The vehicles as they are drawn.
pub open spec fn buses_placed(
    stops: Seq<SimStopModel>,
    plates: Seq<Seq<char>>,
    draws: Seq<BusDraw>,
    places: Seq<PlaceModel>,
) -> Seq<BusPositionModel> {
    Seq::new(draws.len(), |i: int| bus_placed(stops, plates, draws[i], places[i]))
}

/// The first `n` of a list.
pub open spec fn at_most<T>(list: Seq<T>, n: int) -> Seq<T> {
    if list.len() > n {
        list.take(n)
    } else {
        list
    }
}

/// The vehicles in the order of the stops; those at one stop as they were drawn.
pub open spec fn along_the_line(list: Seq<BusPositionModel>) -> Seq<BusPositionModel> {
    arranged(list, stable_order(list.map_values(|x: BusPositionModel| seq![x.station_index as u64])))
}

fn sort_along_the_line(list: &Vec<BusPosition>, limit: usize) -> (r: Vec<BusPosition>)
    ensures
        BusPosition::models(r@) == at_most(along_the_line(BusPosition::models(list@)), limit as int),
        along_the_line(BusPosition::models(list@)).len() == list@.len(),
{
    let ghost models = BusPosition::models(list@);
    let ghost wanted = models.map_values(|x: BusPositionModel| seq![x.station_index as u64]);
    let mut keys: Vec<Vec<u64>> = Vec::new();
    let mut i: usize = 0;
    while i < list.len()
        invariant
            i <= list@.len(),
            models == BusPosition::models(list@),
            wanted == models.map_values(|x: BusPositionModel| seq![x.station_index as u64]),
            key_views(keys@) == wanted.take(i as int),
        decreases list.len() - i,
    {
        let x = &list[i];
        assert(models[i as int] == x@);
        let mut key: Vec<u64> = Vec::new();
        key.push(x.station_index as u64);
        assert(key@ =~= wanted[i as int]);
        let ghost had = key_views(keys@);
        keys.push(key);
        assert(key_views(keys@) =~= had.push(wanted[i as int]));
        assert(wanted.take(i + 1) =~= wanted.take(i as int).push(wanted[i as int]));
        i += 1;
    }
    assert(wanted.take(i as int) =~= wanted);
    let order = order_of(&keys);
    let mut r: Vec<BusPosition> = Vec::new();
    let mut k: usize = 0;
    assert(BusPosition::models(r@) =~= arranged(models, order@).take(0));
    while k < order.len() && k < limit
        invariant
            k <= order@.len(),
            k <= limit,
            models == BusPosition::models(list@),
            order@.len() == models.len(),
            forall|j: int| 0 <= j < order@.len() ==> (#[trigger] order@[j]) < models.len(),
            BusPosition::models(r@) == arranged(models, order@).take(k as int),
        decreases order.len() - k,
    {
        assert(order@[k as int] < models.len());
        let ghost had = BusPosition::models(r@);
        let x = list[order[k]].clone();
        assert(x@ == arranged(models, order@)[k as int]);
        r.push(x);
        assert(BusPosition::models(r@) =~= had.push(arranged(models, order@)[k as int]));
        assert(arranged(models, order@).take(k + 1) =~= arranged(models, order@).take(k as int).push(
            arranged(models, order@)[k as int],
        ));
        k += 1;
    }
    assert(arranged(models, order@).take(k as int) =~= at_most(arranged(models, order@), limit as int));
    r
}

/// The vehicles of a line, in the order of its stops.
pub fn sim_buses(stops: &Vec<SimStop>, plates: &Vec<String>, draws: &Vec<BusDraw>, places: &Vec<Place>) -> (r: Vec<BusPosition>)
    requires
        2 <= stops@.len() <= i32::MAX,
        draws@.len() == places@.len(),
        forall|i: int| 0 <= i < draws@.len() ==> (#[trigger] draws@[i]).plate < plates@.len(),
    ensures
        BusPosition::models(r@) == along_the_line(
            buses_placed(SimStop::models(stops@), views(plates@), draws@, Place::models(places@)),
        ),
        r@.len() == draws@.len(),
{
    let ghost wanted = buses_placed(SimStop::models(stops@), views(plates@), draws@, Place::models(places@));
    let mut buses: Vec<BusPosition> = Vec::new();
    let mut i: usize = 0;
    assert(BusPosition::models(buses@) =~= wanted.take(0));
    while i < draws.len()
        invariant
            i <= draws@.len(),
            2 <= stops@.len() <= i32::MAX,
            draws@.len() == places@.len(),
            forall|i: int| 0 <= i < draws@.len() ==> (#[trigger] draws@[i]).plate < plates@.len(),
            wanted == buses_placed(SimStop::models(stops@), views(plates@), draws@, Place::models(places@)),
            BusPosition::models(buses@) == wanted.take(i as int),
        decreases draws.len() - i,
    {
        let ghost had = BusPosition::models(buses@);
        assert(Place::models(places@)[i as int] == places@[i as int]@);
        assert(draws@[i as int].plate < plates@.len());
        let bus = place_bus(stops, plates, &draws[i], &places[i]);
        assert(bus@ == wanted[i as int]);
        buses.push(bus);
        assert(BusPosition::models(buses@) =~= had.push(wanted[i as int]));
        assert(wanted.take(i + 1) =~= wanted.take(i as int).push(wanted[i as int]));
        i += 1;
    }
    assert(wanted.take(i as int) =~= wanted);
    let n: usize = buses.len();
    assert(wanted.len() == n);
    let r = sort_along_the_line(&buses, n);
    assert(BusPosition::models(r@).len() == n);
    r
}

/// The stretches of road that are drawn from state `s` on: each takes two draws.
pub open spec fn segments_drawn(levels: Levels, s: u64, n: nat) -> Seq<SegmentDraw> {
    Seq::new(
        n,
        |i: int|
            SegmentDraw {
                speed_tick: tick_of(after(s, (2 * i) as nat)),
                congestion: traffic_of(levels, tick_of(after(s, (2 * i + 1) as nat))),
            },
    )
}

/// How many stretches of road there are between the stops.
pub open spec fn stretches(stops: nat) -> nat {
    if stops > 0 {
        (stops - 1) as nat
    } else {
        0
    }
}

/// Draws the stretches of road between the stops.
pub fn sim_segments(levels: &Levels, rng: &mut Rng, stops: usize) -> (r: Vec<SegmentDraw>)
    ensures
        r@ == segments_drawn(*levels, old(rng).state, stretches(stops as nat)),
        final(rng).state == after(old(rng).state, 2 * stretches(stops as nat)),
{
    let ghost s = rng.state;
    let n: usize = if stops > 0 {
        stops - 1
    } else {
        0
    };
    let mut r: Vec<SegmentDraw> = Vec::new();
    let mut i: usize = 0;
    while i < n
        invariant
            i <= n,
            r@.len() == i,
            rng.state == after(s, (2 * i) as nat),
            forall|k: int| 0 <= k < i ==> #[trigger] r@[k] == segments_drawn(*levels, s, n as nat)[k],
        decreases n - i,
    {
        let tick: u64 = rng.tick();
        assert(rng.state == after(s, (2 * i + 1) as nat));
        let congestion = pick_congestion(levels, rng);
        assert(rng.state == after(s, (2 * (i + 1)) as nat));
        r.push(SegmentDraw { speed_tick: tick, congestion: congestion });
        i += 1;
    }
    assert(r@ =~= segments_drawn(*levels, s, n as nat));
    r
}

// ─── at the stops ───

/// The vehicles at the stop `index` that are arriving there, or that are not.
pub open spec fn at_stop(index: u32, is_arriving: bool) -> spec_fn(BusPositionModel) -> bool {
    |b: BusPositionModel| b.station_index == index && b.is_arriving == is_arriving
}

/// How many of the vehicles those are.
pub open spec fn count_at(buses: Seq<BusPositionModel>, index: u32, is_arriving: bool) -> nat {
    buses.filter(at_stop(index, is_arriving)).len()
}

fn count_buses(buses: &Vec<BusPosition>, index: u32, is_arriving: bool) -> (r: usize)
    ensures
        r == count_at(BusPosition::models(buses@), index, is_arriving),
        r <= buses@.len(),
{
    let ghost list = BusPosition::models(buses@);
    let mut n: usize = 0;
    let mut i: usize = 0;
    proof {
        reveal(Seq::filter);
        assert(list.take(0) =~= Seq::<BusPositionModel>::empty());
    }
    while i < buses.len()
        invariant
            n <= i <= buses@.len(),
            list == BusPosition::models(buses@),
            n == list.take(i as int).filter(at_stop(index, is_arriving)).len(),
        decreases buses.len() - i,
    {
        proof {
            crate::seqs::lemma_filter_next(list, at_stop(index, is_arriving), i as int);
        }
        assert(list[i as int] == buses@[i as int]@);
        if buses[i].station_index == index && buses[i].is_arriving == is_arriving {
            n += 1;
        }
        i += 1;
    }
    assert(list.take(i as int) =~= list);
    n
}

/// One vehicle more than there are arrives at a stop now and then.
pub open spec fn extra_at(s: u64, k: nat) -> nat {
    if drawn(after(s, k), 0, 4) == 0 {
        1
    } else {
        0
    }
}

/// The vehicles at the first `n` stops; a stop without any is left out.
pub open spec fn arrivals_drawn(stops: Seq<SimStopModel>, buses: Seq<BusPositionModel>, s: u64, n: nat) -> Seq<StationArrivalModel>
    decreases n,
{
    if n == 0 {
        Seq::empty()
    } else {
        let before = arrivals_drawn(stops, buses, s, (n - 1) as nat);
        let arriving = count_at(buses, n as u32, true) + extra_at(s, (n - 1) as nat);
        let leaving = count_at(buses, n as u32, false);
        if arriving == 0 && leaving == 0 {
            before
        } else {
            before.push(
                StationArrivalModel {
                    station_index: n as u32,
                    station_name: Some(stops[n - 1].name),
                    arriving_count: arriving as u32,
                    leaving_count: leaving as u32,
                },
            )
        }
    }
}

/// The vehicles at the stops of a line.
pub fn sim_station_arrivals(stops: &Vec<SimStop>, buses: &Vec<BusPosition>, rng: &mut Rng) -> (r: Vec<StationArrival>)
    requires
        stops@.len() <= u32::MAX,
        buses@.len() < u32::MAX,
    ensures
        StationArrival::models(r@) == arrivals_drawn(
            SimStop::models(stops@),
            BusPosition::models(buses@),
            old(rng).state,
            stops@.len(),
        ),
        final(rng).state == after(old(rng).state, stops@.len()),
{
    let ghost s = rng.state;
    let ghost names = SimStop::models(stops@);
    let ghost list = BusPosition::models(buses@);
    let mut r: Vec<StationArrival> = Vec::new();
    let mut i: usize = 0;
    assert(StationArrival::models(r@) =~= Seq::<StationArrivalModel>::empty());
    while i < stops.len()
        invariant
            i <= stops@.len(),
            stops@.len() <= u32::MAX,
            buses@.len() < u32::MAX,
            names == SimStop::models(stops@),
            list == BusPosition::models(buses@),
            StationArrival::models(r@) == arrivals_drawn(names, list, s, i as nat),
            rng.state == after(s, i as nat),
        decreases stops.len() - i,
    {
        let index: u32 = (i + 1) as u32;
        let arriving: u32 = count_buses(buses, index, true) as u32;
        let leaving: u32 = count_buses(buses, index, false) as u32;
        let extra: u32 = if rng.range(0, 4) == 0 {
            1
        } else {
            0
        };
        let total: u32 = arriving + extra;
        assert(names[i as int] == stops@[i as int]@);
        if total != 0 || leaving != 0 {
            let ghost had = StationArrival::models(r@);
            let item = StationArrival {
                station_index: index,
                station_name: Some(stops[i].name.clone()),
                arriving_count: total,
                leaving_count: leaving,
            };
            r.push(item);
            assert(StationArrival::models(r@) =~= had.push(item@));
        }
        i += 1;
    }
    r
}

/// Minutes from stop to stop: one of three.
pub open spec fn minutes_per_stop(levels: Levels, day: u64) -> u32 {
    if day <= 1 {
        levels.minutes_fast
    } else if day == 2 {
        levels.minutes_common
    } else {
        levels.minutes_slow
    }
}

/// The estimates, from `left` of them on, for vehicles that are more than `away` stops away from the
/// stop `target`.
pub open spec fn estimates_from(levels: Levels, s: u64, away: nat, left: nat, target: u32) -> Seq<ArrivalDetail>
    decreases left,
{
    let here = (away + drawn(s, 1, 4)) as nat;
    if left == 0 || here >= target {
        Seq::empty()
    } else {
        let first = ArrivalDetail {
            stations_away: here as u32,
            minutes_away: (here * minutes_per_stop(levels, drawn(after(s, 2), 1, 3)) + drawn(after(s, 3), 0, 2)) as u32,
            distance_m: (here * drawn(after(s, 1), 300, 1200)) as u32,
        };
        seq![first] + estimates_from(levels, after(s, 4), here, (left - 1) as nat, target)
    }
}

/// The most estimates that are drawn for a stop.
pub open spec fn most_estimates(levels: Levels) -> u64 {
    if levels.max_estimates > 2 {
        levels.max_estimates
    } else {
        2
    }
}

/// The estimates for the stop `target` of a line with `stops` stops.
pub open spec fn estimates_drawn(levels: Levels, s: u64, target: u32, stops: nat) -> Seq<ArrivalDetail> {
    if target == 0 || target > stops {
        Seq::empty()
    } else {
        estimates_from(
            levels,
            drawn_state(s, 1, most_estimates(levels)),
            0,
            drawn(s, 1, most_estimates(levels)) as nat,
            target,
        )
    }
}

/// The minutes and the metres along a line fit.
pub open spec fn distances_fit(levels: Levels, stops: nat) -> bool {
    &&& stops * 1200 <= u32::MAX
    &&& stops * levels.minutes_fast + 2 <= u32::MAX
    &&& stops * levels.minutes_common + 2 <= u32::MAX
    &&& stops * levels.minutes_slow + 2 <= u32::MAX
}

proof fn lemma_product_fits(a: nat, b: nat, x: nat, most: nat)
    requires
        a <= b,
        b * x <= most,
    ensures
        a * x <= most,
{
    assert(a * x <= b * x) by (nonlinear_arith)
        requires
            a <= b,
    ;
}

/// When vehicles come to the stop `target_order`.
pub fn sim_arrival_estimates(levels: &Levels, stops: usize, target_order: u32, rng: &mut Rng) -> (r: Vec<ArrivalDetail>)
    requires
        distances_fit(*levels, stops as nat),
    ensures
        r@ == estimates_drawn(*levels, old(rng).state, target_order, stops as nat),
{
    if target_order == 0 || target_order as u64 > stops as u64 {
        return Vec::new();
    }
    let most: u64 = if levels.max_estimates > 2 {
        levels.max_estimates
    } else {
        2
    };
    let ghost s = rng.state;
    let count: u64 = rng.range(1, most);
    let ghost start = rng.state;
    let ghost wanted = estimates_drawn(*levels, s, target_order, stops as nat);
    let mut r: Vec<ArrivalDetail> = Vec::new();
    let mut away: u32 = 0;
    let mut left: u64 = count;
    assert(r@ + wanted =~= wanted);
    while left > 0
        invariant
            distances_fit(*levels, stops as nat),
            target_order <= stops,
            away < target_order,
            wanted == estimates_drawn(*levels, old(rng).state, target_order, stops as nat),
            wanted == r@ + estimates_from(*levels, rng.state, away as nat, left as nat, target_order),
        decreases left,
    {
        let ghost s = rng.state;
        let ghost before = r@;
        reveal_with_fuel(after, 5);
        let step: u64 = rng.range(1, 4);
        assert(target_order as nat * 1200 <= u32::MAX) by {
            lemma_product_fits(target_order as nat, stops as nat, 1200, u32::MAX as nat);
        }
        let here: u32 = away + step as u32;
        if here >= target_order {
            assert(wanted =~= r@);
            return r;
        }
        let metres: u64 = rng.range(300, 1200);
        let day: u64 = rng.range(1, 3);
        let minutes: u32 = if day <= 1 {
            levels.minutes_fast
        } else if day == 2 {
            levels.minutes_common
        } else {
            levels.minutes_slow
        };
        let more: u64 = rng.range(0, 2);
        proof {
            lemma_product_fits(here as nat, stops as nat, minutes as nat, (u32::MAX - 2) as nat);
            lemma_product_fits(here as nat, stops as nat, 1200, u32::MAX as nat);
            assert(here * metres <= here * 1200) by (nonlinear_arith)
                requires
                    metres <= 1200,
            ;
            assert(here * metres >= 0) by (nonlinear_arith);
            assert(here * minutes >= 0) by (nonlinear_arith);
        }
        let item = ArrivalDetail {
            stations_away: here,
            minutes_away: here * minutes + more as u32,
            distance_m: here * metres as u32,
        };
        r.push(item);
        assert(rng.state == after(s, 4));
        assert(r@ + estimates_from(*levels, rng.state, here as nat, (left - 1) as nat, target_order) =~= before + (seq![item]
            + estimates_from(*levels, rng.state, here as nat, (left - 1) as nat, target_order)));
        away = here;
        left -= 1;
    }
    assert(wanted =~= r@);
    r
}

// ─── replies ───

/// The stops of all lines, line by line.
pub open spec fn stops_of_all(routes: Seq<SimRouteModel>) -> Seq<SimStopModel>
    decreases routes.len(),
{
    if routes.len() == 0 {
        Seq::empty()
    } else {
        stops_of_all(routes.drop_last()) + routes.last().stops
    }
}

/// The stops of all lines, line by line.
pub fn all_stops(routes: &Vec<SimRoute>) -> (r: Vec<SimStop>)
    ensures
        SimStop::models(r@) == stops_of_all(SimRoute::models(routes@)),
{
    let ghost list = SimRoute::models(routes@);
    let mut r: Vec<SimStop> = Vec::new();
    let mut i: usize = 0;
    assert(list.take(0) =~= Seq::<SimRouteModel>::empty());
    assert(SimStop::models(r@) =~= Seq::<SimStopModel>::empty());
    while i < routes.len()
        invariant
            i <= routes@.len(),
            list == SimRoute::models(routes@),
            SimStop::models(r@) == stops_of_all(list.take(i as int)),
        decreases routes.len() - i,
    {
        let stops = &routes[i].stops;
        let ghost before = SimStop::models(r@);
        let ghost added = list[i as int].stops;
        assert(list[i as int] == routes@[i as int]@);
        assert(list.take(i + 1).drop_last() =~= list.take(i as int));
        let mut k: usize = 0;
        assert(before + added.take(0) =~= before);
        while k < stops.len()
            invariant
                k <= stops@.len(),
                added == SimStop::models(stops@),
                SimStop::models(r@) == before + added.take(k as int),
            decreases stops.len() - k,
        {
            let ghost had = SimStop::models(r@);
            assert(added[k as int] == stops@[k as int]@);
            r.push(stops[k].clone());
            assert(SimStop::models(r@) =~= had.push(added[k as int]));
            assert(before + added.take(k + 1) =~= (before + added.take(k as int)).push(added[k as int]));
            k += 1;
        }
        assert(added.take(k as int) =~= added);
        i += 1;
    }
    assert(list.take(i as int) =~= list);
    r
}

/// One of the stops has that name.
pub open spec fn has_name(stations: Seq<StationModel>, name: Seq<char>) -> bool {
    exists|i: int| 0 <= i < stations.len() && (#[trigger] stations[i]).name == name
}

fn name_taken(stations: &Vec<Station>, name: &str) -> (r: bool)
    ensures
        r == has_name(Station::models(stations@), name@),
{
    let ghost list = Station::models(stations@);
    let mut i: usize = 0;
    while i < stations.len()
        invariant
            i <= stations@.len(),
            list == Station::models(stations@),
            forall|j: int| 0 <= j < i ==> (#[trigger] list[j]).name != name@,
        decreases stations.len() - i,
    {
        assert(list[i as int] == stations@[i as int]@);
        if same(stations[i].name.as_str(), name) {
            assert(list[i as int].name == name@);
            return true;
        }
        i += 1;
    }
    false
}

/// The stops less than two kilometres away, each name once, and the state of the generator behind
/// them.
pub open spec fn near_stops(stops: Seq<SimStopModel>, distances: Seq<u32>, s: u64) -> (Seq<StationModel>, u64)
    decreases stops.len(),
{
    if stops.len() == 0 {
        (Seq::empty(), s)
    } else {
        let (before, t) = near_stops(stops.drop_last(), distances, s);
        let stop = stops.last();
        let distance = distances[stops.len() - 1];
        if distance < 2000 && !has_name(before, stop.name) {
            (
                before.push(
                    StationModel {
                        id: Some(stop.id),
                        name: stop.name,
                        alias: stop.alias,
                        lat: stop.lat,
                        lng: stop.lng,
                        distance_m: distance,
                        same_name_count: drawn(t, 1, 4) as u32,
                    },
                ),
                stepped(t),
            )
        } else {
            (before, t)
        }
    }
}

/// The stops by their distance.
pub open spec fn nearest_first(list: Seq<StationModel>) -> Seq<StationModel> {
    arranged(list, stable_order(list.map_values(|x: StationModel| seq![x.distance_m as u64])))
}

fn sort_nearest_first(list: &Vec<Station>, limit: usize) -> (r: Vec<Station>)
    ensures
        Station::models(r@) == at_most(nearest_first(Station::models(list@)), limit as int),
        nearest_first(Station::models(list@)).len() == list@.len(),
{
    let ghost models = Station::models(list@);
    let ghost wanted = models.map_values(|x: StationModel| seq![x.distance_m as u64]);
    let mut keys: Vec<Vec<u64>> = Vec::new();
    let mut i: usize = 0;
    while i < list.len()
        invariant
            i <= list@.len(),
            models == Station::models(list@),
            wanted == models.map_values(|x: StationModel| seq![x.distance_m as u64]),
            key_views(keys@) == wanted.take(i as int),
        decreases list.len() - i,
    {
        let x = &list[i];
        assert(models[i as int] == x@);
        let mut key: Vec<u64> = Vec::new();
        key.push(x.distance_m as u64);
        assert(key@ =~= wanted[i as int]);
        let ghost had = key_views(keys@);
        keys.push(key);
        assert(key_views(keys@) =~= had.push(wanted[i as int]));
        assert(wanted.take(i + 1) =~= wanted.take(i as int).push(wanted[i as int]));
        i += 1;
    }
    assert(wanted.take(i as int) =~= wanted);
    let order = order_of(&keys);
    let mut r: Vec<Station> = Vec::new();
    let mut k: usize = 0;
    assert(Station::models(r@) =~= arranged(models, order@).take(0));
    while k < order.len() && k < limit
        invariant
            k <= order@.len(),
            k <= limit,
            models == Station::models(list@),
            order@.len() == models.len(),
            forall|j: int| 0 <= j < order@.len() ==> (#[trigger] order@[j]) < models.len(),
            Station::models(r@) == arranged(models, order@).take(k as int),
        decreases order.len() - k,
    {
        assert(order@[k as int] < models.len());
        let ghost had = Station::models(r@);
        let x = list[order[k]].clone();
        assert(x@ == arranged(models, order@)[k as int]);
        r.push(x);
        assert(Station::models(r@) =~= had.push(arranged(models, order@)[k as int]));
        assert(arranged(models, order@).take(k + 1) =~= arranged(models, order@).take(k as int).push(
            arranged(models, order@)[k as int],
        ));
        k += 1;
    }
    assert(arranged(models, order@).take(k as int) =~= at_most(arranged(models, order@), limit as int));
    r
}

/// The ten stops that are nearest; `distances` are the metres to the stops.
pub fn nearby_stations(stops: &Vec<SimStop>, distances: &Vec<u32>, rng: &mut Rng) -> (r: Vec<Station>)
    requires
        stops@.len() == distances@.len(),
    ensures
        Station::models(r@) == at_most(nearest_first(near_stops(SimStop::models(stops@), distances@, old(rng).state).0), 10),
        final(rng).state == near_stops(SimStop::models(stops@), distances@, old(rng).state).1,
{
    let ghost s = rng.state;
    let ghost list = SimStop::models(stops@);
    let mut near: Vec<Station> = Vec::new();
    let mut i: usize = 0;
    assert(list.take(0) =~= Seq::<SimStopModel>::empty());
    assert(Station::models(near@) =~= Seq::<StationModel>::empty());
    while i < stops.len()
        invariant
            i <= stops@.len(),
            stops@.len() == distances@.len(),
            list == SimStop::models(stops@),
            (Station::models(near@), rng.state) == near_stops(list.take(i as int), distances@, s),
        decreases stops.len() - i,
    {
        let stop = &stops[i];
        assert(list[i as int] == stops@[i as int]@);
        assert(list.take(i + 1).drop_last() =~= list.take(i as int));
        assert(list.take(i + 1).last() == list[i as int]);
        if distances[i] < 2000 && !name_taken(&near, stop.name.as_str()) {
            let count: u64 = rng.range(1, 4);
            let ghost had = Station::models(near@);
            let item = Station {
                id: Some(stop.id.clone()),
                name: stop.name.clone(),
                alias: stop.alias.clone(),
                lat: stop.lat,
                lng: stop.lng,
                distance_m: distances[i],
                same_name_count: count as u32,
            };
            near.push(item);
            assert(Station::models(near@) =~= had.push(item@));
        }
        i += 1;
    }
    assert(list.take(i as int) =~= list);
    sort_nearest_first(&near, 10)
}

/// When the next vehicle comes, drawn in state `s`, and the state behind that.
pub open spec fn arrival_drawn(state: RunState, s: u64) -> (ArrivalEstimate, u64) {
    match state {
        RunState::NotOperating => (ArrivalEstimate::NoService, s),
        RunState::Stopped => (ArrivalEstimate::NoService, s),
        RunState::NoRealtime => (ArrivalEstimate::Unknown, s),
        RunState::Running => {
            let v = drawn(s, 0, 10);
            let away = drawn(after(s, 1), 1, 6);
            if v == 0 {
                (ArrivalEstimate::Arriving, after(s, 1))
            } else if v <= 8 {
                (
                    ArrivalEstimate::Approaching {
                        stations_away: away as u32,
                        minutes_away: Some((away * 2 + drawn(after(s, 2), 0, 3)) as u32),
                        distance_m: Some((away * drawn(after(s, 3), 300, 900)) as u32),
                    },
                    after(s, 4),
                )
            } else {
                (ArrivalEstimate::Unknown, after(s, 1))
            }
        },
    }
}

fn draw_arrival(state: RunState, rng: &mut Rng) -> (r: ArrivalEstimate)
    ensures
        (r, final(rng).state) == arrival_drawn(state, old(rng).state),
{
    let ghost s = rng.state;
    reveal_with_fuel(after, 5);
    match state {
        RunState::NotOperating => ArrivalEstimate::NoService,
        RunState::Stopped => ArrivalEstimate::NoService,
        RunState::NoRealtime => ArrivalEstimate::Unknown,
        RunState::Running => {
            let v: u64 = rng.range(0, 10);
            if v == 0 {
                ArrivalEstimate::Arriving
            } else if v <= 8 {
                let away: u64 = rng.range(1, 6);
                let more: u64 = rng.range(0, 3);
                let metres: u64 = rng.range(300, 900);
                assert(away * metres <= 6 * 900) by (nonlinear_arith)
                    requires
                        away <= 6,
                        metres <= 900,
                ;
                ArrivalEstimate::Approaching {
                    stations_away: away as u32,
                    minutes_away: Some((away * 2 + more) as u32),
                    distance_m: Some((away * metres) as u32),
                }
            } else {
                ArrivalEstimate::Unknown
            }
        },
    }
}

/// The stop that goes by that name or id.
pub open spec fn stop_goes_by(key: Seq<char>) -> spec_fn(SimStopModel) -> bool {
    |s: SimStopModel| s.name == key || s.id == key
}

/// The lines that call at a stop, and the state of the generator behind them.
pub open spec fn lines_drawn(levels: Levels, routes: Seq<SimRouteModel>, station: Seq<char>, s: u64, now: u64) -> (Seq<LineSummaryModel>, u64)
    decreases routes.len(),
{
    if routes.len() == 0 {
        (Seq::empty(), s)
    } else {
        let (before, t) = lines_drawn(levels, routes.drop_last(), station, s, now);
        let route = routes.last();
        let at = first_where(route.stops, stop_goes_by(station));
        if at >= route.stops.len() {
            (before, t)
        } else {
            let (state, u) = run_state_drawn(levels, route, t, now);
            let (arrival, v) = arrival_drawn(state, u);
            (
                before.push(
                    LineSummaryModel {
                        id: Some(route.id),
                        name: route.name,
                        direction_id: route.dir_id,
                        endpoints: endpoints_of(route),
                        arrival: arrival,
                        station_order: (at + 1) as u32,
                        run_state: state,
                    },
                ),
                v,
            )
        }
    }
}

/// The ends of a line.
pub open spec fn endpoints_of(route: SimRouteModel) -> EndpointsViewModel {
    EndpointsViewModel {
        origin: route.origin,
        origin_alias: route.origin_alias,
        terminus: route.terminus,
        terminus_alias: route.terminus_alias,
    }
}

fn read_endpoints(route: &SimRoute) -> (r: EndpointsView)
    ensures
        r@ == endpoints_of(route@),
{
    EndpointsView {
        origin: route.origin.clone(),
        origin_alias: route.origin_alias.clone(),
        terminus: route.terminus.clone(),
        terminus_alias: route.terminus_alias.clone(),
    }
}

fn stop_position(stops: &Vec<SimStop>, station: &str) -> (r: usize)
    ensures
        r == first_where(SimStop::models(stops@), stop_goes_by(station@)),
        r <= stops@.len(),
{
    let ghost list = SimStop::models(stops@);
    let mut i: usize = 0;
    while i < stops.len()
        invariant
            i <= stops@.len(),
            list == SimStop::models(stops@),
            forall|j: int| 0 <= j < i ==> !stop_goes_by(station@)(#[trigger] list[j]),
        decreases stops.len() - i,
    {
        assert(list[i as int] == stops@[i as int]@);
        if same(stops[i].name.as_str(), station) || same(stops[i].id.as_str(), station) {
            proof {
                lemma_first_where(list, stop_goes_by(station@), i as int);
            }
            return i;
        }
        i += 1;
    }
    proof {
        lemma_first_where(list, stop_goes_by(station@), i as int);
    }
    i
}

/// The lines that call at a stop.
pub fn station_lines(levels: &Levels, routes: &Vec<SimRoute>, station: &str, rng: &mut Rng, now: u64) -> (r: Vec<LineSummary>)
    requires
        forall|i: int| 0 <= i < routes@.len() ==> (#[trigger] routes@[i]).stops@.len() < u32::MAX,
    ensures
        (LineSummary::models(r@), final(rng).state) == lines_drawn(
            *levels,
            SimRoute::models(routes@),
            station@,
            old(rng).state,
            now,
        ),
{
    let ghost s = rng.state;
    let ghost list = SimRoute::models(routes@);
    let mut r: Vec<LineSummary> = Vec::new();
    let mut i: usize = 0;
    assert(list.take(0) =~= Seq::<SimRouteModel>::empty());
    assert(LineSummary::models(r@) =~= Seq::<LineSummaryModel>::empty());
    while i < routes.len()
        invariant
            i <= routes@.len(),
            forall|i: int| 0 <= i < routes@.len() ==> (#[trigger] routes@[i]).stops@.len() < u32::MAX,
            list == SimRoute::models(routes@),
            (LineSummary::models(r@), rng.state) == lines_drawn(*levels, list.take(i as int), station@, s, now),
        decreases routes.len() - i,
    {
        let route = &routes[i];
        assert(list[i as int] == routes@[i as int]@);
        assert(routes@[i as int].stops@.len() < u32::MAX);
        assert(list[i as int].stops.len() == route.stops@.len());
        assert(list.take(i + 1).drop_last() =~= list.take(i as int));
        assert(list.take(i + 1).last() == list[i as int]);
        let at: usize = stop_position(&route.stops, station);
        if at < route.stops.len() {
            let state = sim_run_state(levels, route, rng, now);
            let arrival = draw_arrival(state, rng);
            let ghost had = LineSummary::models(r@);
            let item = LineSummary {
                id: Some(route.id.clone()),
                name: route.name.clone(),
                direction_id: route.dir_id.clone(),
                endpoints: read_endpoints(route),
                arrival: arrival,
                station_order: (at + 1) as u32,
                run_state: state,
            };
            r.push(item);
            assert(LineSummary::models(r@) =~= had.push(item@));
        }
        i += 1;
    }
    assert(list.take(i as int) =~= list);
    r
}

/// A stop of a line, by its place `i`.
pub open spec fn line_stop_of(stop: SimStopModel, i: int) -> LineStopModel {
    LineStopModel {
        id: Some(stop.id),
        name: stop.name,
        alias: stop.alias,
        order: (i + 1) as u32,
        lat: stop.lat,
        lng: stop.lng,
        status: stop.status,
        track_index: Some((i * 4) as u32),
    }
}

/// A line with its stops; `track` is the road between them, four points to a stretch.
pub open spec fn line_of(route: SimRouteModel, track: Seq<GeoPoint>) -> LineDetailModel {
    LineDetailModel {
        id: Some(route.id),
        name: route.name,
        direction_id: route.dir_id,
        reverse_id: Some(route.reverse_id),
        topology: RouteTopologyModel {
            start: terminal_of(route.origin),
            end: terminal_of(route.terminus),
            stations: Seq::new(route.stops.len(), |i: int| line_stop_of(route.stops[i], i)),
            track_points: track,
        },
        meta: LineMetaModel {
            first_service: service_time(route.first_service),
            last_service: service_time(route.last_service),
            fare: FareModel::Text(route.fare),
            company: Some(route.company),
            contact: ContactInfoModel::Phone(route.contact),
            notes: route.notes,
        },
    }
}

/// A line with its stops.
pub fn line_detail(route: &SimRoute, track: Vec<GeoPoint>) -> (r: LineDetail)
    requires
        route.stops@.len() * 4 <= u32::MAX,
    ensures
        r@ == line_of(route@, track@),
{
    let ghost wanted = Seq::new(route@.stops.len(), |i: int| line_stop_of(route@.stops[i], i));
    let mut stops: Vec<LineStop> = Vec::new();
    let mut i: usize = 0;
    assert(LineStop::models(stops@) =~= wanted.take(0));
    while i < route.stops.len()
        invariant
            i <= route.stops@.len(),
            route.stops@.len() * 4 <= u32::MAX,
            wanted == Seq::new(route@.stops.len(), |i: int| line_stop_of(route@.stops[i], i)),
            LineStop::models(stops@) == wanted.take(i as int),
        decreases route.stops.len() - i,
    {
        let s = &route.stops[i];
        assert(route@.stops[i as int] == route.stops@[i as int]@);
        let item = LineStop {
            id: Some(s.id.clone()),
            name: s.name.clone(),
            alias: s.alias.clone(),
            order: (i + 1) as u32,
            lat: s.lat,
            lng: s.lng,
            status: s.status,
            track_index: Some((i * 4) as u32),
        };
        let ghost had = LineStop::models(stops@);
        assert(item@ == wanted[i as int]);
        stops.push(item);
        assert(LineStop::models(stops@) =~= had.push(wanted[i as int]));
        assert(wanted.take(i + 1) =~= wanted.take(i as int).push(wanted[i as int]));
        i += 1;
    }
    assert(wanted.take(i as int) =~= wanted);
    LineDetail {
        id: Some(route.id.clone()),
        name: route.name.clone(),
        direction_id: route.dir_id.clone(),
        reverse_id: Some(route.reverse_id.clone()),
        topology: RouteTopology {
            start: Terminal::named(route.origin.as_str()),
            end: Terminal::named(route.terminus.as_str()),
            stations: stops,
            track_points: track,
        },
        meta: LineMeta {
            first_service: ServiceTime::parse(route.first_service.as_str()),
            last_service: ServiceTime::parse(route.last_service.as_str()),
            fare: Fare::Text(route.fare.clone()),
            company: Some(route.company.clone()),
            contact: ContactInfo::Phone(route.contact.clone()),
            notes: route.notes.clone(),
        },
    }
}

/// A line in the list of lines.
pub open spec fn bus_route_of(route: SimRouteModel) -> BusRouteModel {
    BusRouteModel {
        id: Some(route.id),
        name: route.name,
        direction_id: route.dir_id,
        start: terminal_of(route.origin),
        end: terminal_of(route.terminus),
        endpoints: endpoints_of(route),
        company: Some(route.company),
    }
}

fn read_bus_route(route: &SimRoute) -> (r: BusRoute)
    ensures
        r@ == bus_route_of(route@),
{
    BusRoute {
        id: Some(route.id.clone()),
        name: route.name.clone(),
        direction_id: route.dir_id.clone(),
        start: Terminal::named(route.origin.as_str()),
        end: Terminal::named(route.terminus.as_str()),
        endpoints: read_endpoints(route),
        company: Some(route.company.clone()),
    }
}

/// All lines.
pub open spec fn all_lines_of(list: Seq<SimRouteModel>) -> Seq<BusRouteModel> {
    list.map_values(|x: SimRouteModel| bus_route_of(x))
}

/// All lines.
pub fn all_lines(list: &Vec<SimRoute>) -> (r: Vec<BusRoute>)
    ensures
        BusRoute::models(r@) == all_lines_of(SimRoute::models(list@)),
{
    let ghost wanted = all_lines_of(SimRoute::models(list@));
    let mut r: Vec<BusRoute> = Vec::new();
    let mut i: usize = 0;
    assert(BusRoute::models(r@) =~= wanted.take(0));
    while i < list.len()
        invariant
            i <= list@.len(),
            wanted == all_lines_of(SimRoute::models(list@)),
            BusRoute::models(r@) == wanted.take(i as int),
        decreases list.len() - i,
    {
        let ghost had = BusRoute::models(r@);
        assert(SimRoute::models(list@)[i as int] == list@[i as int]@);
        let item = read_bus_route(&list[i]);
        assert(item@ == wanted[i as int]);
        r.push(item);
        assert(BusRoute::models(r@) =~= had.push(wanted[i as int]));
        assert(wanted.take(i + 1) =~= wanted.take(i as int).push(wanted[i as int]));
        i += 1;
    }
    assert(wanted.take(i as int) =~= wanted);
    r
}

/// Live data is drawn in two goes: the vehicles first, and the rest once they have been placed. A line
/// that is not running has no vehicles.
pub open spec fn is_idle(state: RunState) -> bool {
    state == RunState::NotOperating || state == RunState::Stopped
}

/// The vehicles of a line that is in that state, and the state of the generator behind them.
pub open spec fn vehicles_drawn(levels: Levels, state: RunState, s: u64, plates: nat, stops: nat, now: u64) -> (Seq<BusDraw>, u64) {
    if is_idle(state) {
        (Seq::empty(), s)
    } else {
        let n = bus_count_drawn(levels, s, plates);
        let t = drawn_state(s, levels.min_buses, levels.max_buses);
        (buses_drawn(levels, t, plates, stops, now, n), after(t, 7 * n))
    }
}

/// Draws whether a line is running and the vehicles on it.
pub fn draw_vehicles(levels: &Levels, route: &SimRoute, plates: usize, rng: &mut Rng, now: u64) -> (r: (RunState, Vec<BusDraw>))
    requires
        levels.max_buses - levels.min_buses < u64::MAX,
        plates > 0,
        route.stops@.len() > 0,
        now + route.stops@.len() * 120 < u64::MAX,
    ensures
        ({
            let (state, s) = run_state_drawn(*levels, route@, old(rng).state, now);
            r.0 == state && (r.1@, final(rng).state) == vehicles_drawn(
                *levels,
                state,
                s,
                plates as nat,
                route@.stops.len(),
                now,
            )
        }),
        forall|i: int| 0 <= i < r.1@.len() ==> (#[trigger] r.1@[i]).plate < plates,
{
    assert(route@.stops.len() == route.stops@.len());
    let state = sim_run_state(levels, route, rng, now);
    match state {
        RunState::NotOperating => (state, Vec::new()),
        RunState::Stopped => (state, Vec::new()),
        _ => {
            let draws = draw_buses(levels, rng, plates, route.stops.len(), now);
            (state, draws)
        },
    }
}

/// Live data but for the speed of the traffic.
#[derive(Debug)]
pub struct LiveDraw {
    pub run_state: RunState,
    pub buses: Vec<BusPosition>,
    pub station_arrivals: Vec<StationArrival>,
    pub segments: Vec<SegmentDraw>,
    pub arrival_estimates: Vec<ArrivalDetail>,
}

/// What a [`LiveDraw`] holds.
#[verifier::ext_equal]
pub struct LiveDrawModel {
    pub run_state: RunState,
    pub buses: Seq<BusPositionModel>,
    pub station_arrivals: Seq<StationArrivalModel>,
    pub segments: Seq<SegmentDraw>,
    pub arrival_estimates: Seq<ArrivalDetail>,
}

impl View for LiveDraw {
    type V = LiveDrawModel;

    open spec fn view(&self) -> LiveDrawModel {
        LiveDrawModel {
            run_state: self.run_state,
            buses: BusPosition::models(self.buses@),
            station_arrivals: StationArrival::models(self.station_arrivals@),
            segments: self.segments@,
            arrival_estimates: self.arrival_estimates@,
        }
    }
}

/// The rest of the live data of a line, drawn from state `s` on.
pub open spec fn live_drawn(
    levels: Levels,
    route: SimRouteModel,
    plates: Seq<Seq<char>>,
    state: RunState,
    draws: Seq<BusDraw>,
    places: Seq<PlaceModel>,
    target_order: u32,
    s: u64,
) -> LiveDrawModel {
    let n = route.stops.len();
    if is_idle(state) {
        LiveDrawModel {
            run_state: state,
            buses: Seq::empty(),
            station_arrivals: Seq::empty(),
            segments: segments_drawn(levels, s, stretches(n)),
            arrival_estimates: Seq::empty(),
        }
    } else {
        let buses = along_the_line(buses_placed(route.stops, plates, draws, places));
        LiveDrawModel {
            run_state: state,
            buses: buses,
            station_arrivals: arrivals_drawn(route.stops, buses, s, n),
            segments: segments_drawn(levels, after(s, n), stretches(n)),
            arrival_estimates: estimates_drawn(levels, after(after(s, n), 2 * stretches(n)), target_order, n),
        }
    }
}

/// Draws the rest of the live data of a line, its vehicles being placed.
pub fn draw_live(
    levels: &Levels,
    route: &SimRoute,
    plates: &Vec<String>,
    state: RunState,
    draws: &Vec<BusDraw>,
    places: &Vec<Place>,
    target_order: u32,
    rng: &mut Rng,
) -> (r: LiveDraw)
    requires
        2 <= route.stops@.len() <= i32::MAX,
        distances_fit(*levels, route.stops@.len()),
        draws@.len() == places@.len(),
        draws@.len() < u32::MAX,
        forall|i: int| 0 <= i < draws@.len() ==> (#[trigger] draws@[i]).plate < plates@.len(),
    ensures
        r@ == live_drawn(
            *levels,
            route@,
            views(plates@),
            state,
            draws@,
            Place::models(places@),
            target_order,
            old(rng).state,
        ),
{
    assert(route@.stops.len() == route.stops@.len());
    let idle = match state {
        RunState::NotOperating => true,
        RunState::Stopped => true,
        _ => false,
    };
    if idle {
        let segments = sim_segments(levels, rng, route.stops.len());
        let r = LiveDraw {
            run_state: state,
            buses: Vec::new(),
            station_arrivals: Vec::new(),
            segments: segments,
            arrival_estimates: Vec::new(),
        };
        assert(BusPosition::models(r.buses@) =~= Seq::<BusPositionModel>::empty());
        assert(StationArrival::models(r.station_arrivals@) =~= Seq::<StationArrivalModel>::empty());
        return r;
    }
    let buses = sim_buses(&route.stops, plates, draws, places);
    let arrivals = sim_station_arrivals(&route.stops, &buses, rng);
    let segments = sim_segments(levels, rng, route.stops.len());
    let estimates = sim_arrival_estimates(levels, route.stops.len(), target_order, rng);
    LiveDraw {
        run_state: state,
        buses: buses,
        station_arrivals: arrivals,
        segments: segments,
        arrival_estimates: estimates,
    }
}

/// The live data of a line, the speed of its traffic being known.
pub open spec fn realtime_of(live: LiveDrawModel, first_service: Seq<char>, segments: Seq<RouteSegment>) -> RealTimeDataModel {
    RealTimeDataModel {
        run_state: live.run_state,
        plan_time: Some(first_service),
        buses: live.buses,
        station_arrivals: live.station_arrivals,
        segments: segments,
        arrival_estimates: live.arrival_estimates,
    }
}

/// The live data of a line, the speed of its traffic being known.
pub fn realtime(live: LiveDraw, route: &SimRoute, segments: Vec<RouteSegment>) -> (r: RealTimeData)
    ensures
        r@ == realtime_of(live@, route@.first_service, segments@),
{
    RealTimeData {
        run_state: live.run_state,
        plan_time: Some(route.first_service.clone()),
        buses: live.buses,
        station_arrivals: live.station_arrivals,
        segments: segments,
        arrival_estimates: live.arrival_estimates,
    }
}

// ─── laws ───

proof fn lemma_free_plate(used: Seq<BusDraw>, plate: int, plates: int, left: nat)
    requires
        0 <= plate < plates,
    ensures
        ({
            let r = free_plate(used, plate, plates, left);
            &&& 0 <= r < plates
            &&& has_plate(used, r) ==> forall|k: int| 0 <= k < left ==> has_plate(used, #[trigger] ((plate + k) % plates))
        }),
    decreases left,
{
    if left > 0 && has_plate(used, plate) {
        let next = (plate + 1) % plates;
        lemma_free_plate(used, next, plates, (left - 1) as nat);
        if has_plate(used, free_plate(used, plate, plates, left)) {
            assert forall|k: int| 0 <= k < left implies has_plate(used, #[trigger] ((plate + k) % plates)) by {
                if k == 0 {
                    vstd::arithmetic::div_mod::lemma_small_mod(plate as nat, plates as nat);
                } else {
                    vstd::arithmetic::div_mod::lemma_add_mod_noop_right(k - 1, plate + 1, plates);
                    assert((k - 1) + (plate + 1) == plate + k);
                    assert((next + (k - 1)) % plates == (plate + k) % plates);
                }
            }
        }
    }
}

proof fn lemma_some_plate_is_free(used: Seq<BusDraw>, plate: int, plates: int)
    requires
        0 <= plate < plates,
        used.len() < plates,
    ensures
        !has_plate(used, free_plate(used, plate, plates, plates as nat)),
{
    lemma_free_plate(used, plate, plates, plates as nat);
    if has_plate(used, free_plate(used, plate, plates, plates as nat)) {
        let taken = Seq::new(used.len(), |i: int| used[i].plate as int);
        let all = vstd::set_lib::set_int_range(0, plates);
        vstd::set_lib::lemma_int_range(0, plates);
        taken.lemma_cardinality_of_set();
        assert forall|q: int| all.contains(q) implies taken.to_set().contains(q) by {
            let k = (q - plate) % plates;
            vstd::arithmetic::div_mod::lemma_add_mod_noop_right(plate, q - plate, plates);
            vstd::arithmetic::div_mod::lemma_small_mod(q as nat, plates as nat);
            assert((plate + k) % plates == q);
            assert(has_plate(used, q));
            let i = choose|i: int| 0 <= i < used.len() && (#[trigger] used[i]).plate == q;
            assert(taken[i] == q);
        }
        vstd::set_lib::lemma_len_subset(all, taken.to_set());
    }
}

/// No two vehicles that are drawn together have one plate.
pub proof fn law_plates_differ(levels: Levels, s: u64, plates: nat, stops: nat, now: u64, n: nat)
    requires
        0 < n <= plates <= usize::MAX,
    ensures
        ({
            let buses = buses_drawn(levels, s, plates, stops, now, n);
            &&& buses.len() == n
            &&& forall|i: int, j: int| 0 <= i < j < n ==> (#[trigger] buses[i]).plate != (#[trigger] buses[j]).plate
        }),
    decreases n,
{
    let before = buses_drawn(levels, s, plates, stops, now, (n - 1) as nat);
    if n > 1 {
        law_plates_differ(levels, s, plates, stops, now, (n - 1) as nat);
    }
    let t = after(s, (7 * (n - 1)) as nat);
    let first = stepped(t) as int % plates as int;
    lemma_some_plate_is_free(before, first, plates as int);
    lemma_free_plate(before, first, plates as int, plates);
    let buses = buses_drawn(levels, s, plates, stops, now, n);
    assert forall|i: int, j: int| 0 <= i < j < n implies (#[trigger] buses[i]).plate != (#[trigger] buses[j]).plate by {
        if j == n - 1 {
            assert(before[i].plate == buses[i].plate);
        } else {
            assert(before[i] == buses[i] && before[j] == buses[j]);
        }
    }
}

/// No two stops nearby have one name, and all are less than two kilometres away.
pub proof fn law_nearby_stops_differ(stops: Seq<SimStopModel>, distances: Seq<u32>, s: u64)
    requires
        stops.len() <= distances.len(),
    ensures
        ({
            let near = near_stops(stops, distances, s).0;
            &&& forall|i: int, j: int| 0 <= i < j < near.len() ==> (#[trigger] near[i]).name != (#[trigger] near[j]).name
            &&& forall|i: int| 0 <= i < near.len() ==> (#[trigger] near[i]).distance_m < 2000
        }),
    decreases stops.len(),
{
    if stops.len() > 0 {
        law_nearby_stops_differ(stops.drop_last(), distances, s);
    }
}

/// Estimates come nearest first, and none is at or behind the stop.
pub proof fn law_estimates_go_outward(levels: Levels, s: u64, away: nat, left: nat, target: u32)
    ensures
        ({
            let list = estimates_from(levels, s, away, left, target);
            &&& forall|i: int| 0 <= i < list.len() ==> away < (#[trigger] list[i]).stations_away < target
            &&& forall|i: int, j: int|
                0 <= i < j < list.len() ==> (#[trigger] list[i]).stations_away < (#[trigger] list[j]).stations_away
        }),
    decreases left,
{
    let here = (away + drawn(s, 1, 4)) as nat;
    assert(1 <= drawn(s, 1, 4) <= 4);
    if left > 0 && here < target {
        law_estimates_go_outward(levels, after(s, 4), here, (left - 1) as nat, target);
        let rest = estimates_from(levels, after(s, 4), here, (left - 1) as nat, target);
        let list = estimates_from(levels, s, away, left, target);
        assert(list[0].stations_away == here);
        assert forall|i: int| 0 < i < list.len() implies list[i] == #[trigger] rest[i - 1] by {}
        assert forall|i: int| 0 <= i < list.len() implies away < (#[trigger] list[i]).stations_away < target by {
            if i > 0 {
                assert(rest[i - 1].stations_away > here);
            }
        }
        assert forall|i: int, j: int| 0 <= i < j < list.len() implies (#[trigger] list[i]).stations_away < (#[trigger] list[j]).stations_away by {
            assert(rest[j - 1].stations_away > here);
            if i > 0 {
                assert(rest[i - 1].stations_away < rest[j - 1].stations_away);
            }
        }
    }
}

// ─── what the simulation shows ───

/// A simulated line runs from the hour of its first vehicle to that of its last; before it does not run yet, and
/// afterwards it has stopped. There is no live data where the draw says so, and nothing runs where all is stopped.
pub proof fn law_line_runs_in_its_hours(levels: Levels, route: SimRouteModel, s: u64, now: u64)
    requires
        hour_of(route.first_service, 5) < hour_of(route.last_service, 23),
    ensures
        ({
            let state = run_state_drawn(levels, route, s, now).0;
            let hour = (now / 3600) % 24;
            &&& levels.stopped ==> state is Stopped
            &&& !levels.stopped && tick_of(s) < levels.offline ==> state is NoRealtime
            &&& !levels.stopped && tick_of(s) >= levels.offline ==> (state is Running <==> hour_of(route.first_service, 5) <= hour
                < hour_of(route.last_service, 23))
            &&& !levels.stopped && tick_of(s) >= levels.offline && hour < hour_of(route.first_service, 5) ==> state is NotOperating
            &&& !levels.stopped && tick_of(s) >= levels.offline && hour >= hour_of(route.last_service, 23) ==> state is Stopped
        }),
{
}

/// A number that is drawn lies in its range.
pub proof fn law_drawn_number_is_in_range(s: u64, min: u64, max: u64)
    requires
        min <= max,
    ensures
        min <= drawn(s, min, max) <= max,
        tick_of(s) < 10_000,
{
    if min < max {
        let m = max - min + 1;
        assert(0 <= stepped(s) as int % m < m) by (nonlinear_arith)
            requires
                m > 0,
        ;
    }
}

/// A vehicle is full below the first mark, crowded below the second and neither below the third; the road is jammed
/// below its first mark and slow below its second.
pub proof fn law_marks_tell_crowd_and_traffic(levels: Levels, tick: u64)
    requires
        levels.full <= levels.crowded <= levels.normal,
        levels.congested <= levels.slow,
    ensures
        crowd_of(levels, tick) is Full <==> tick < levels.full,
        crowd_of(levels, tick) is Crowded <==> levels.full <= tick < levels.crowded,
        crowd_of(levels, tick) is Normal <==> levels.crowded <= tick < levels.normal,
        crowd_of(levels, tick) is Spacious <==> tick >= levels.normal,
        traffic_of(levels, tick) is Congested <==> tick < levels.congested,
        traffic_of(levels, tick) is Slow <==> levels.congested <= tick < levels.slow,
        traffic_of(levels, tick) is Smooth <==> tick >= levels.slow,
{
}

/// A simulated vehicle has the plate that was drawn for it and is where it was placed: between the stop that it left
/// and the next one, which it names.
pub proof fn law_vehicle_is_where_it_was_placed(
    stops: Seq<SimStopModel>,
    plates: Seq<Seq<char>>,
    draws: Seq<BusDraw>,
    places: Seq<PlaceModel>,
    i: int,
)
    requires
        0 <= i < draws.len(),
        draws.len() == places.len(),
        places[i].station_idx + 2 <= stops.len() <= u32::MAX,
    ensures
        ({
            let bus = buses_placed(stops, plates, draws, places)[i];
            let at = places[i].station_idx as int;
            &&& bus.bus_id == plates[draws[i].plate as int]
            &&& bus.station_index == at + 1 && bus.station_name == Some(stops[at + 1].name)
            &&& bus.is_arriving == places[i].is_arriving
            &&& bus.lat == Some(places[i].lat) && bus.lng == Some(places[i].lng) && bus.angle == Some(places[i].angle)
            &&& bus.travel_time_secs == Some(places[i].travel_secs) && bus.distance_to_station == Some(places[i].distance)
            &&& bus.crowd_status == draws[i].crowd
            &&& bus.state_description is Some
            &&& places[i].is_arriving ==> bus.state_description->0 == stops[at + 1].name + "即将到站"@
        }),
{
}

/// The simulated vehicles are listed along the line, each of them once.
pub proof fn law_vehicles_go_along_the_line(list: Seq<BusPositionModel>)
    requires
        list.len() <= usize::MAX,
    ensures
        ({
            let r = along_the_line(list);
            &&& r.len() == list.len()
            &&& forall|k: int| 0 <= k < list.len() ==> r.contains(#[trigger] list[k])
            &&& forall|i: int, j: int| 0 <= i < j < r.len() ==> (#[trigger] r[i]).station_index <= (#[trigger] r[j]).station_index
        }),
{
    let keys = list.map_values(|x: BusPositionModel| seq![x.station_index as u64]);
    let order = stable_order(keys);
    let r = along_the_line(list);
    lemma_arranged(list, keys);
    assert forall|i: int, j: int| 0 <= i < j < r.len() implies (#[trigger] r[i]).station_index <= (#[trigger] r[j]).station_index by {
        let (a, b) = (order[i] as int, order[j] as int);
        assert(r[i] == list[a] && r[j] == list[b]);
        assert(keys[a] == seq![list[a].station_index as u64] && keys[b] == seq![list[b].station_index as u64]);
        lemma_lex_one(keys[b], keys[a]);
    }
    assert forall|k: int| 0 <= k < list.len() implies r.contains(#[trigger] list[k]) by {
        assert(order.contains(k as usize));
        let at = choose|at: int| 0 <= at < order.len() && order[at] == k as usize;
        assert(r[at] == list[k]);
    }
}

/// The simulated stops near a position are listed from the nearest.
pub proof fn law_simulated_stops_go_by_distance(list: Seq<StationModel>)
    requires
        list.len() <= usize::MAX,
    ensures
        ({
            let r = nearest_first(list);
            &&& r.len() == list.len()
            &&& forall|k: int| 0 <= k < list.len() ==> r.contains(#[trigger] list[k])
            &&& forall|i: int, j: int| 0 <= i < j < r.len() ==> (#[trigger] r[i]).distance_m <= (#[trigger] r[j]).distance_m
        }),
{
    let keys = list.map_values(|x: StationModel| seq![x.distance_m as u64]);
    let order = stable_order(keys);
    let r = nearest_first(list);
    lemma_arranged(list, keys);
    assert forall|i: int, j: int| 0 <= i < j < r.len() implies (#[trigger] r[i]).distance_m <= (#[trigger] r[j]).distance_m by {
        let (a, b) = (order[i] as int, order[j] as int);
        assert(r[i] == list[a] && r[j] == list[b]);
        assert(keys[a] == seq![list[a].distance_m as u64] && keys[b] == seq![list[b].distance_m as u64]);
        lemma_lex_one(keys[b], keys[a]);
    }
    assert forall|k: int| 0 <= k < list.len() implies r.contains(#[trigger] list[k]) by {
        assert(order.contains(k as usize));
        let at = choose|at: int| 0 <= at < order.len() && order[at] == k as usize;
        assert(r[at] == list[k]);
    }
}

/// A stop is near exactly where it is less than two kilometres away; of several of one name there is one.
pub proof fn law_stops_within_two_kilometres_are_near(stops: Seq<SimStopModel>, distances: Seq<u32>, s: u64, k: int)
    requires
        stops.len() <= distances.len(),
        0 <= k < stops.len(),
    ensures
        distances[k] < 2000 ==> has_name(near_stops(stops, distances, s).0, stops[k].name),
        forall|i: int|
            0 <= i < near_stops(stops, distances, s).0.len() ==> is_near_stop(
                #[trigger] near_stops(stops, distances, s).0[i],
                stops,
                distances,
            ),
    decreases stops.len(),
{
    let front = stops.drop_last();
    let before = near_stops(front, distances, s).0;
    let all = near_stops(stops, distances, s).0;
    if front.len() > 0 {
        law_stops_within_two_kilometres_are_near(front, distances, s, if k < front.len() { k } else { 0 });
    }
    if distances[k] < 2000 {
        if k < front.len() {
            assert(front[k] == stops[k]);
            let i = choose|i: int| 0 <= i < before.len() && (#[trigger] before[i]).name == stops[k].name;
            assert(all[i].name == stops[k].name);
        } else if has_name(before, stops[k].name) {
            let i = choose|i: int| 0 <= i < before.len() && (#[trigger] before[i]).name == stops[k].name;
            assert(all[i].name == stops[k].name);
        } else {
            assert(all[all.len() - 1].name == stops[k].name);
        }
    }
    assert forall|i: int| 0 <= i < all.len() implies is_near_stop(#[trigger] all[i], stops, distances) by {
        if i < before.len() {
            assert(all[i] == before[i]);
            assert(is_near_stop(before[i], front, distances));
            let j = choose|j: int|
                0 <= j < front.len() && (#[trigger] front[j]).name == before[i].name && distances[j] == before[i].distance_m && front[j].lat
                    == before[i].lat && front[j].lng == before[i].lng;
            assert(stops[j] == front[j]);
        } else {
            let last = stops.len() - 1;
            assert(stops[last].name == all[i].name);
        }
    }
}

/// A stop that is near is one of the stops, at its distance and less than two kilometres away.
pub open spec fn is_near_stop(s: StationModel, stops: Seq<SimStopModel>, distances: Seq<u32>) -> bool {
    s.distance_m < 2000 && exists|j: int|
        0 <= j < stops.len() && (#[trigger] stops[j]).name == s.name && distances[j] == s.distance_m && stops[j].lat == s.lat
            && stops[j].lng == s.lng
}

/// A simulated line has its stops in their order, counted from one, with its ends, its times and its fare.
pub proof fn law_simulated_line_has_its_stops(route: SimRouteModel, track: Seq<GeoPoint>, i: int)
    requires
        0 <= i < route.stops.len() < u32::MAX,
    ensures
        ({
            let line = line_of(route, track);
            let stop = line.topology.stations[i];
            &&& line.topology.stations.len() == route.stops.len()
            &&& stop.order == i + 1 && stop.name == route.stops[i].name && stop.lat == route.stops[i].lat && stop.lng
                == route.stops[i].lng && stop.status == route.stops[i].status
            &&& line.name == route.name && line.direction_id == route.dir_id && line.reverse_id == Some(route.reverse_id)
            &&& line.meta.fare == FareModel::Text(route.fare)
        }),
{
}

/// A line is found by its id or by that of either direction.
pub proof fn law_line_goes_by_its_ids(routes: Seq<SimRouteModel>, key: Seq<char>, i: int)
    requires
        0 <= i < routes.len(),
        routes[i].id == key || routes[i].dir_id == key || routes[i].reverse_id == key,
        forall|k: int|
            0 <= k < i ==> (#[trigger] routes[k]).id != key && routes[k].dir_id != key && routes[k].reverse_id != key,
    ensures
        route_for(routes, key) == routes[i],
{
    lemma_first_where(routes, goes_by(key), i);
}

/// A line that does not run has no vehicle and no estimate.
pub proof fn law_idle_line_is_empty(
    levels: Levels,
    route: SimRouteModel,
    plates: Seq<Seq<char>>,
    state: RunState,
    draws: Seq<BusDraw>,
    places: Seq<PlaceModel>,
    target_order: u32,
    s: u64,
)
    ensures
        ({
            let live = live_drawn(levels, route, plates, state, draws, places, target_order, s);
            &&& live.run_state == state
            &&& state is Stopped || state is NotOperating ==> live.buses.len() == 0 && live.arrival_estimates.len() == 0
        }),
{
}

/// What a line says of a stop follows whether it runs: no service where it does not, and nothing where there is no live
/// data.
pub proof fn law_arrival_follows_the_run_state(state: RunState, s: u64)
    ensures
        state is Stopped || state is NotOperating ==> arrival_drawn(state, s).0 is NoService,
        state is NoRealtime ==> arrival_drawn(state, s).0 is Unknown,
        state is Running ==> !(arrival_drawn(state, s).0 is NoService),
        arrival_drawn(state, s).0 matches ArrivalEstimate::Approaching { stations_away, .. } ==> 1 <= stations_away <= 6,
{
    law_drawn_number_is_in_range(after(s, 1), 1, 6);
}

} // verus!
