//! Watching a vehicle: where it is, when to alert, and when the watch is over.
//!
//! A watch goes round by round. [`begin_round`] says whether it goes on, [`observe`] makes the card
//! and the alert of a round from the live data, [`after_alert`] and [`on_failure`] keep count. The
//! owner of the watch fetches the data, updates the card and sends the alerts.
use crate::models::{
    valid_point, ArrivalDetail, BusPosition, BusPositionModel, LineStop, LineStopModel, RealTimeData, RealTimeDataModel,
};
use crate::render::{
    approach_list, approach_parts, describe_bus, described, escape, escaped, minutes_up, watch_card, watch_card_of,
    whole_minutes,
};
use crate::seqs::{first_where, lemma_first_where};
use crate::sort::{goes_before, key_views, lemma_stable_order_is_one, lex_lt, order_of, stable_order};
use crate::stops::{find_stop, progress, progress_of, stop_index};
use crate::store::{AlertSettings, WatchSpec, WatchSpecModel};
use crate::text::{copy, dec, decimal, group_has, has, join, joined, occurs_at, opt_view, same};
use vstd::prelude::*;

verus! {

/// After how many failures in a row a watch is given up.
pub const MAX_CONSECUTIVE_ERRORS: u32 = 6;

/// Where the vehicle is that is waited for.
#[derive(Debug, PartialEq)]
pub struct Approach {
    /// How the vehicle is called, or that there is only an estimate.
    pub label: String,
    /// Where it is; an estimate has no place.
    pub location: Option<String>,
    pub stations_away: Option<u32>,
    pub minutes_away: Option<u32>,
    pub distance_m: Option<u32>,
    /// It has passed the boarding stop.
    pub passed: bool,
    /// It is arriving at the boarding stop.
    pub at_target: bool,
    /// An estimate that is tied to no vehicle.
    pub anonymous: bool,
}

/// What a [`Approach`] holds.
#[verifier::ext_equal]
pub struct ApproachModel {
    pub label: Seq<char>,
    pub location: Option<Seq<char>>,
    pub stations_away: Option<u32>,
    pub minutes_away: Option<u32>,
    pub distance_m: Option<u32>,
    pub passed: bool,
    pub at_target: bool,
    pub anonymous: bool,
}

impl View for Approach {
    type V = ApproachModel;

    open spec fn view(&self) -> ApproachModel {
        ApproachModel {
            label: self.label@,
            location: opt_view(self.location),
            stations_away: self.stations_away,
            minutes_away: self.minutes_away,
            distance_m: self.distance_m,
            passed: self.passed,
            at_target: self.at_target,
            anonymous: self.anonymous,
        }
    }
}

impl Clone for Approach {
    fn clone(&self) -> (r: Self)
        ensures
            r@ == self@,
    {
        let r = Approach {
            label: self.label.clone(),
            location: self.location.clone(),
            stations_away: self.stations_away,
            minutes_away: self.minutes_away,
            distance_m: self.distance_m,
            passed: self.passed,
            at_target: self.at_target,
            anonymous: self.anonymous,
        };
        r
    }
}

/// Metres as the crow flies from a vehicle to the boarding stop: none where either position is
/// missing.
pub open spec fn distance_of(bus: BusPositionModel, stops: Seq<LineStopModel>, order: u32) -> Option<u32> {
    let at = stop_index(stops, order);
    if at < stops.len() && at < bus.stop_distances_m.len() && bus.lat is Some && bus.lng is Some
        && crate::models::real_point(bus.lat->0, bus.lng->0) && crate::models::real_point(stops[at].lat, stops[at].lng) {
        Some(bus.stop_distances_m[at])
    } else {
        None
    }
}

/// A vehicle has been measured: it carries a distance to each stop of its line.
pub open spec fn is_measured(bus: BusPositionModel, stops: Seq<LineStopModel>) -> bool {
    bus.stop_distances_m.len() == stops.len()
}

/// A vehicle that has been measured has a distance to the boarding stop exactly where that stop is on the
/// line and both of them are at real places; what the source calls the distance makes no difference.
pub proof fn law_distance_needs_both_places(
    bus: BusPositionModel,
    stops: Seq<LineStopModel>,
    order: u32,
    claimed: BusPositionModel,
)
    requires
        is_measured(bus, stops),
        claimed == (BusPositionModel {
            distance_to_station: claimed.distance_to_station,
            distance_shown_m: claimed.distance_shown_m,
            ..bus
        }),
    ensures
        distance_of(bus, stops, order) is Some <==> {
            let at = stop_index(stops, order);
            &&& at < stops.len()
            &&& bus.lat is Some && bus.lng is Some
            &&& crate::models::real_point(bus.lat->0, bus.lng->0)
            &&& crate::models::real_point(stops[at].lat, stops[at].lng)
        },
        distance_of(bus, stops, order) is Some ==> distance_of(bus, stops, order) == Some(
            bus.stop_distances_m[stop_index(stops, order)],
        ),
        distance_of(claimed, stops, order) == distance_of(bus, stops, order),
{
    crate::seqs::lemma_first_where_is(stops, |s: LineStopModel| s.order == order);
}

/// Metres as the crow flies from a vehicle to the boarding stop.
///
/// What the sources call the distance means different things, often the distance to the next stop.
/// It is never taken for the distance to the boarding stop: that is measured between the positions,
/// and where one is missing there is none.
pub fn distance_to_target(bus: &BusPosition, stops: &[LineStop], order: u32) -> (r: Option<u32>)
    ensures
        r == distance_of(bus@, LineStop::models(stops@), order),
{
    let at: usize = find_stop(stops, order);
    if at >= stops.len() || at >= bus.stop_distances_m.len() {
        return None;
    }
    assert(LineStop::models(stops@)[at as int] == stops@[at as int]@);
    match (bus.lat, bus.lng) {
        (Some(lat), Some(lng)) => {
            if !valid_point(lat, lng) || !valid_point(stops[at].lat, stops[at].lng) {
                None
            } else {
                Some(bus.stop_distances_m[at])
            }
        },
        _ => None,
    }
}

/// A number, or the largest there is.
pub open spec fn or_max(n: Option<u32>) -> u32 {
    match n {
        Some(n) => n,
        None => u32::MAX,
    }
}

/// Whether a vehicle has passed the boarding stop.
pub open spec fn has_passed(bus: BusPositionModel, stops: Seq<LineStopModel>, order: u32) -> bool {
    progress_of(bus.station_index, bus.is_arriving, stops, order).1
}

/// What vehicles are ordered by: stops left, then the time the source gives, then the distance.
/// What is missing comes last, and so does a vehicle that has passed the boarding stop.
pub open spec fn nearness(bus: BusPositionModel, stops: Seq<LineStopModel>, order: u32) -> (u32, u32, u32) {
    if has_passed(bus, stops, order) {
        (u32::MAX, u32::MAX, u32::MAX)
    } else {
        (
            or_max(progress_of(bus.station_index, bus.is_arriving, stops, order).0),
            or_max(bus.travel_time_secs),
            or_max(distance_of(bus, stops, order)),
        )
    }
}

/// Whether a key comes before another.
pub open spec fn nearer(a: (u32, u32, u32), b: (u32, u32, u32)) -> bool {
    a.0 < b.0 || (a.0 == b.0 && (a.1 < b.1 || (a.1 == b.1 && a.2 < b.2)))
}

/// What vehicles are ordered by, nearest first.
pub fn proximity_key(bus: &BusPosition, stops: &[LineStop], order: u32) -> (r: (u32, u32, u32))
    ensures
        r == nearness(bus@, LineStop::models(stops@), order),
{
    let (left, passed, _) = progress(bus.station_index, bus.is_arriving, stops, order);
    if passed {
        return (u32::MAX, u32::MAX, u32::MAX);
    }
    let stations: u32 = match left {
        Some(n) => n,
        None => u32::MAX,
    };
    let time: u32 = match bus.travel_time_secs {
        Some(n) => n,
        None => u32::MAX,
    };
    let distance: u32 = match distance_to_target(bus, stops, order) {
        Some(n) => n,
        None => u32::MAX,
    };
    (stations, time, distance)
}

fn is_nearer(a: (u32, u32, u32), b: (u32, u32, u32)) -> (r: bool)
    ensures
        r == nearer(a, b),
{
    a.0 < b.0 || (a.0 == b.0 && (a.1 < b.1 || (a.1 == b.1 && a.2 < b.2)))
}

/// What a vehicle is ordered by, as numbers to be compared from the left: first whether it has passed, so
/// that one of which nothing is known still comes before those that have.
pub open spec fn nearness_key(bus: BusPositionModel, stops: Seq<LineStopModel>, order: u32) -> Seq<u64> {
    let key = nearness(bus, stops, order);
    let passed: u64 = if has_passed(bus, stops, order) {
        1
    } else {
        0
    };
    seq![passed, key.0 as u64, key.1 as u64, key.2 as u64]
}

/// What each vehicle is ordered by.
pub open spec fn nearness_keys(buses: Seq<BusPositionModel>, stops: Seq<LineStopModel>, order: u32) -> Seq<Seq<u64>> {
    buses.map_values(|b: BusPositionModel| nearness_key(b, stops, order))
}

/// The positions of the vehicles from the nearest to the farthest; those that are equally near stay in
/// the order of the source.
pub open spec fn by_nearness(buses: Seq<BusPositionModel>, stops: Seq<LineStopModel>, order: u32) -> Seq<usize> {
    stable_order(nearness_keys(buses, stops, order))
}

/// The positions of the vehicles in the order in which they are listed: the nearest comes first.
pub fn nearest_first(buses: &Vec<BusPosition>, stops: &[LineStop], order: u32) -> (r: Vec<usize>)
    ensures
        r@ == by_nearness(BusPosition::models(buses@), LineStop::models(stops@), order),
        r@.len() == buses@.len(),
        forall|i: int| 0 <= i < r@.len() ==> (#[trigger] r@[i]) < buses@.len(),
{
    let ghost list = BusPosition::models(buses@);
    let ghost all = LineStop::models(stops@);
    let ghost wanted = nearness_keys(list, all, order);
    let mut keys: Vec<Vec<u64>> = Vec::new();
    let mut i: usize = 0;
    assert(key_views(keys@) =~= wanted.take(0));
    while i < buses.len()
        invariant
            i <= buses@.len(),
            list == BusPosition::models(buses@),
            all == LineStop::models(stops@),
            wanted == nearness_keys(list, all, order),
            key_views(keys@) == wanted.take(i as int),
        decreases buses.len() - i,
    {
        let ghost had = key_views(keys@);
        assert(list[i as int] == buses@[i as int]@);
        let near = proximity_key(&buses[i], stops, order);
        let (_, passed, _) = progress(buses[i].station_index, buses[i].is_arriving, stops, order);
        let mut key: Vec<u64> = Vec::new();
        key.push(
            if passed {
                1
            } else {
                0
            },
        );
        key.push(near.0 as u64);
        key.push(near.1 as u64);
        key.push(near.2 as u64);
        assert(key@ =~= wanted[i as int]);
        keys.push(key);
        assert(key_views(keys@) =~= had.push(wanted[i as int]));
        assert(wanted.take(i + 1) =~= wanted.take(i as int).push(wanted[i as int]));
        i += 1;
    }
    assert(wanted.take(i as int) =~= wanted);
    order_of(&keys)
}

/// The nearest of the first `n` vehicles that has not passed, the first where several are.
pub open spec fn nearest(buses: Seq<BusPositionModel>, stops: Seq<LineStopModel>, order: u32, n: nat) -> Option<int>
    decreases n,
{
    if n == 0 {
        None
    } else {
        let before = nearest(buses, stops, order, (n - 1) as nat);
        if has_passed(buses[n - 1], stops, order) {
            before
        } else {
            match before {
                None => Some(n - 1),
                Some(best) => if nearer(nearness(buses[n - 1], stops, order), nearness(buses[best], stops, order)) {
                    Some(n - 1)
                } else {
                    Some(best)
                },
            }
        }
    }
}

/// The nearest vehicle has not passed, and none that has not passed is nearer; there is one as soon
/// as one has not passed.
pub proof fn law_nearest_is_nearest(buses: Seq<BusPositionModel>, stops: Seq<LineStopModel>, order: u32, n: nat)
    requires
        n <= buses.len(),
    ensures
        match nearest(buses, stops, order, n) {
            Some(best) => {
                &&& 0 <= best < n
                &&& !has_passed(buses[best], stops, order)
                &&& forall|i: int|
                    0 <= i < n && !has_passed(#[trigger] buses[i], stops, order) ==> !nearer(
                        nearness(buses[i], stops, order),
                        nearness(buses[best], stops, order),
                    ) && (i < best ==> nearness(buses[i], stops, order) != nearness(buses[best], stops, order))
            },
            None => forall|i: int| 0 <= i < n ==> has_passed(#[trigger] buses[i], stops, order),
        },
    decreases n,
{
    if n > 0 {
        law_nearest_is_nearest(buses, stops, order, (n - 1) as nat);
    }
}

/// Whether an estimate comes before another: fewer stops, then fewer minutes.
pub open spec fn sooner(a: ArrivalDetail, b: ArrivalDetail) -> bool {
    a.stations_away < b.stations_away || (a.stations_away == b.stations_away && a.minutes_away < b.minutes_away)
}

/// The soonest of the first `n` estimates, the first where several are.
pub open spec fn soonest(list: Seq<ArrivalDetail>, n: nat) -> int
    decreases n,
{
    if n <= 1 {
        0
    } else {
        let before = soonest(list, (n - 1) as nat);
        if sooner(list[n - 1], list[before]) {
            n - 1
        } else {
            before
        }
    }
}

/// A vehicle of the live data as what is waited for.
pub open spec fn approach_of(buses: Seq<BusPositionModel>, index: int, stops: Seq<LineStopModel>, order: u32) -> ApproachModel {
    let bus = buses[index];
    let view = described(bus, index, stops, order);
    let (left, passed, at_target) = progress_of(bus.station_index, bus.is_arriving, stops, order);
    ApproachModel {
        label: view.identity,
        location: Some(view.location),
        stations_away: left,
        minutes_away: match bus.travel_time_secs {
            Some(seconds) => Some(minutes_up(seconds)),
            None => None,
        },
        distance_m: distance_of(bus, stops, order),
        passed: passed,
        at_target: at_target,
        anonymous: false,
    }
}

/// An estimate that is tied to no vehicle as what is waited for.
pub open spec fn anonymous_approach(e: ArrivalDetail) -> ApproachModel {
    ApproachModel {
        label: "综合预估（上游未提供车辆编号）"@,
        location: None,
        stations_away: Some(e.stations_away),
        minutes_away: Some(e.minutes_away),
        distance_m: Some(e.distance_m),
        passed: false,
        at_target: e.stations_away == 0,
        anonymous: true,
    }
}

/// The position of a vehicle by its number.
pub open spec fn bus_index(buses: Seq<BusPositionModel>, target: Seq<char>) -> int {
    first_where(buses, |b: BusPositionModel| b.bus_id == target)
}

/// What is waited for: the vehicle of that number; without one the nearest vehicle that has not
/// passed, and where there is none the soonest estimate.
pub open spec fn located(
    realtime: RealTimeDataModel,
    stops: Seq<LineStopModel>,
    order: u32,
    target_bus: Option<Seq<char>>,
) -> Option<ApproachModel> {
    match target_bus {
        Some(target) => {
            let i = bus_index(realtime.buses, target);
            if i < realtime.buses.len() {
                Some(approach_of(realtime.buses, i, stops, order))
            } else {
                None
            }
        },
        None => match nearest(realtime.buses, stops, order, realtime.buses.len()) {
            Some(i) => Some(approach_of(realtime.buses, i, stops, order)),
            None => if realtime.arrival_estimates.len() > 0 {
                Some(
                    anonymous_approach(
                        realtime.arrival_estimates[soonest(
                            realtime.arrival_estimates,
                            realtime.arrival_estimates.len(),
                        )],
                    ),
                )
            } else {
                None
            },
        },
    }
}

fn approach_at(buses: &Vec<BusPosition>, index: usize, stops: &[LineStop], order: u32) -> (r: Approach)
    requires
        index < buses@.len(),
    ensures
        r@ == approach_of(BusPosition::models(buses@), index as int, LineStop::models(stops@), order),
{
    let n: usize = buses.len();
    let bus = &buses[index];
    assert(BusPosition::models(buses@)[index as int] == bus@);
    let view = describe_bus(bus, index, stops, order);
    let (left, passed, at_target) = progress(bus.station_index, bus.is_arriving, stops, order);
    Approach {
        label: view.identity,
        location: Some(view.location),
        stations_away: left,
        minutes_away: match bus.travel_time_secs {
            Some(seconds) => Some(whole_minutes(seconds)),
            None => None,
        },
        distance_m: distance_to_target(bus, stops, order),
        passed: passed,
        at_target: at_target,
        anonymous: false,
    }
}

fn find_bus(buses: &Vec<BusPosition>, target: &str) -> (r: usize)
    ensures
        r == bus_index(BusPosition::models(buses@), target@),
        r <= buses@.len(),
{
    let ghost list = BusPosition::models(buses@);
    let ghost p = |b: BusPositionModel| b.bus_id == target@;
    let mut i: usize = 0;
    while i < buses.len()
        invariant
            i <= buses@.len(),
            list == BusPosition::models(buses@),
            p == (|b: BusPositionModel| b.bus_id == target@),
            forall|j: int| 0 <= j < i ==> !p(#[trigger] list[j]),
        decreases buses.len() - i,
    {
        assert(list[i as int] == buses@[i as int]@);
        if same(buses[i].bus_id.as_str(), target) {
            proof {
                lemma_first_where(list, p, i as int);
            }
            return i;
        }
        i += 1;
    }
    proof {
        lemma_first_where(list, p, i as int);
    }
    i
}

fn find_nearest(buses: &Vec<BusPosition>, stops: &[LineStop], order: u32) -> (r: Option<usize>)
    ensures
        match (r, nearest(BusPosition::models(buses@), LineStop::models(stops@), order, buses@.len())) {
            (Some(a), Some(b)) => a == b && a < buses@.len(),
            (None, None) => true,
            _ => false,
        },
{
    let ghost list = BusPosition::models(buses@);
    let ghost all = LineStop::models(stops@);
    let mut best: Option<usize> = None;
    let mut i: usize = 0;
    while i < buses.len()
        invariant
            i <= buses@.len(),
            list == BusPosition::models(buses@),
            all == LineStop::models(stops@),
            match (best, nearest(list, all, order, i as nat)) {
                (Some(a), Some(b)) => a == b && a < i,
                (None, None) => true,
                _ => false,
            },
        decreases buses.len() - i,
    {
        assert(list[i as int] == buses@[i as int]@);
        let (_, passed, _) = progress(buses[i].station_index, buses[i].is_arriving, stops, order);
        if !passed {
            match best {
                None => {
                    best = Some(i);
                },
                Some(b) => {
                    assert(list[b as int] == buses@[b as int]@);
                    if is_nearer(proximity_key(&buses[i], stops, order), proximity_key(&buses[b], stops, order)) {
                        best = Some(i);
                    }
                },
            }
        }
        i += 1;
    }
    best
}

fn find_soonest(list: &Vec<ArrivalDetail>) -> (r: usize)
    requires
        list@.len() > 0,
    ensures
        r == soonest(list@, list@.len()),
        r < list@.len(),
{
    let mut best: usize = 0;
    let mut i: usize = 1;
    while i < list.len()
        invariant
            1 <= i <= list@.len(),
            best < i,
            best == soonest(list@, i as nat),
        decreases list.len() - i,
    {
        let a = list[i];
        let b = list[best];
        if a.stations_away < b.stations_away || (a.stations_away == b.stations_away && a.minutes_away
            < b.minutes_away) {
            best = i;
        }
        i += 1;
    }
    best
}

/// The first vehicle in the list is the one that is followed where none was chosen, as soon as there is
/// one that has not passed.
pub proof fn law_list_begins_with_the_followed(
    realtime: RealTimeDataModel,
    stops: Seq<LineStopModel>,
    order: u32,
    i: int,
)
    requires
        realtime.buses.len() <= usize::MAX,
        0 <= i < realtime.buses.len(),
        !has_passed(realtime.buses[i], stops, order),
    ensures
        located(realtime, stops, order, None) == Some(
            approach_of(realtime.buses, by_nearness(realtime.buses, stops, order)[0] as int, stops, order),
        ),
{
    let buses = realtime.buses;
    let keys = nearness_keys(buses, stops, order);
    let shown = by_nearness(buses, stops, order);
    lemma_stable_order_is_one(keys);
    law_nearest_is_nearest(buses, stops, order, buses.len());
    let best = nearest(buses, stops, order, buses.len())->0;
    let first = shown[0] as int;
    assert(shown.contains(best as usize));
    let at = choose|k: int| 0 <= k < shown.len() && shown[k] == best as usize;
    if at > 0 {
        assert(goes_before(keys, shown[0] as int, shown[at] as int));
        assert(keys[first] == nearness_key(buses[first], stops, order));
        assert(keys[best] == nearness_key(buses[best], stops, order));
        lemma_key_order(buses[first], buses[best], stops, order);
    }
}

/// An estimate that is tied to no vehicle is never passed off as one: it is taken only where no vehicle
/// was chosen and none is on its way, and then it is marked and has no place on the line.
pub proof fn law_estimates_are_marked(
    realtime: RealTimeDataModel,
    stops: Seq<LineStopModel>,
    order: u32,
    target_bus: Option<Seq<char>>,
)
    ensures
        match located(realtime, stops, order, target_bus) {
            Some(a) => {
                &&& a.anonymous <==> target_bus is None && forall|i: int|
                    0 <= i < realtime.buses.len() ==> has_passed(#[trigger] realtime.buses[i], stops, order)
                &&& a.anonymous ==> a.label == "综合预估（上游未提供车辆编号）"@ && a.location is None
            },
            None => true,
        },
{
    law_nearest_is_nearest(realtime.buses, stops, order, realtime.buses.len());
}

/// Keys are compared as the numbers in them are, whoever has passed coming last.
proof fn lemma_key_order(a: BusPositionModel, b: BusPositionModel, stops: Seq<LineStopModel>, order: u32)
    requires
        !has_passed(b, stops, order),
    ensures
        lex_lt(nearness_key(a, stops, order), nearness_key(b, stops, order)) == (!has_passed(a, stops, order) && nearer(
            nearness(a, stops, order),
            nearness(b, stops, order),
        )),
        nearness_key(a, stops, order) == nearness_key(b, stops, order) ==> !has_passed(a, stops, order) && nearness(
            a,
            stops,
            order,
        ) == nearness(b, stops, order),
{
    let (x, y) = (nearness_key(a, stops, order), nearness_key(b, stops, order));
    reveal_with_fuel(lex_lt, 5);
    assert(x.drop_first() =~= seq![x[1], x[2], x[3]]);
    assert(y.drop_first() =~= seq![y[1], y[2], y[3]]);
    assert(x.drop_first().drop_first() =~= seq![x[2], x[3]]);
    assert(y.drop_first().drop_first() =~= seq![y[2], y[3]]);
    assert(x.drop_first().drop_first().drop_first() =~= seq![x[3]]);
    assert(y.drop_first().drop_first().drop_first() =~= seq![y[3]]);
    assert(x.drop_first().drop_first().drop_first().drop_first() =~= Seq::<u64>::empty());
    assert(y.drop_first().drop_first().drop_first().drop_first() =~= Seq::<u64>::empty());
    if x == y {
        assert(x[0] == y[0] && x[1] == y[1] && x[2] == y[2] && x[3] == y[3]);
    }
}

/// The vehicle that is waited for; none where the source has no data about it at the moment.
pub fn locate(realtime: &RealTimeData, stops: &[LineStop], order: u32, target_bus: Option<&str>) -> (r: Option<Approach>)
    ensures
        match (r, located(realtime@, LineStop::models(stops@), order, opt_str(target_bus))) {
            (Some(a), Some(b)) => a@ == b,
            (None, None) => true,
            _ => false,
        },
{
    assert(realtime@.buses.len() == realtime.buses@.len());
    match target_bus {
        Some(target) => {
            let i: usize = find_bus(&realtime.buses, target);
            if i < realtime.buses.len() {
                Some(approach_at(&realtime.buses, i, stops, order))
            } else {
                None
            }
        },
        None => match find_nearest(&realtime.buses, stops, order) {
            Some(i) => Some(approach_at(&realtime.buses, i, stops, order)),
            None => {
                if realtime.arrival_estimates.len() > 0 {
                    let e = realtime.arrival_estimates[find_soonest(&realtime.arrival_estimates)];
                    Some(
                        Approach {
                            label: copy("综合预估（上游未提供车辆编号）"),
                            location: None,
                            stations_away: Some(e.stations_away),
                            minutes_away: Some(e.minutes_away),
                            distance_m: Some(e.distance_m),
                            passed: false,
                            at_target: e.stations_away == 0,
                            anonymous: true,
                        },
                    )
                } else {
                    None
                }
            },
        },
    }
}

/// The view of an optional text.
pub open spec fn opt_str(s: Option<&str>) -> Option<Seq<char>> {
    match s {
        Some(s) => Some(s@),
        None => None,
    }
}

// ─── alerts ───

/// Which alerts were sent.
#[derive(Debug, Clone, Copy, PartialEq, Eq, Structural)]
pub struct AlertState {
    pub stations_alerted: bool,
    pub last_distance_alert: u64,
}

impl Default for AlertState {
    fn default() -> (r: Self)
        ensures
            r == (AlertState { stations_alerted: false, last_distance_alert: 0 }),
    {
        AlertState { stations_alerted: false, last_distance_alert: 0 }
    }
}

/// An alert.
#[derive(Debug, Clone, Copy, PartialEq, Eq, Structural)]
pub enum Alert {
    /// So many stops are left; sent once.
    Stations(u32),
    /// So many metres are left; sent again and again.
    Distance(u32),
    /// The vehicle is arriving.
    Arriving,
    /// The vehicle has passed.
    Passed,
}

/// Whether the watch is over with this alert.
pub open spec fn ends_watch(alert: Alert) -> bool {
    alert is Arriving || alert is Passed
}

impl Alert {
    /// Whether the watch is over with this alert.
    pub fn is_final(self) -> (r: bool)
        ensures
            r == ends_watch(self),
    {
        match self {
            Alert::Arriving | Alert::Passed => true,
            _ => false,
        }
    }
}

/// The alert by stops is due: it is switched on, was not sent yet, and few enough stops are left.
pub open spec fn stations_due(a: ApproachModel, alerts: AlertSettings, state: AlertState) -> bool {
    alerts.alert_stations > 0 && !state.stations_alerted && a.stations_away is Some && a.stations_away->0
        <= alerts.alert_stations
}

/// The alert by distance is due: it is switched on, the vehicle is near enough, and the last one is
/// long enough ago.
pub open spec fn distance_due(a: ApproachModel, alerts: AlertSettings, state: AlertState, now: u64) -> bool {
    alerts.alert_distance_m > 0 && a.distance_m is Some && a.distance_m->0 <= alerts.alert_distance_m && (if now
        >= state.last_distance_alert {
        now - state.last_distance_alert
    } else {
        0
    }) >= alerts.repeat_secs
}

/// The alert that is due.
pub open spec fn due_alert(a: ApproachModel, alerts: AlertSettings, state: AlertState, now: u64) -> Option<Alert> {
    if a.at_target {
        Some(Alert::Arriving)
    } else if a.passed {
        Some(Alert::Passed)
    } else if stations_due(a, alerts, state) {
        Some(Alert::Stations(a.stations_away->0))
    } else if distance_due(a, alerts, state, now) {
        Some(Alert::Distance(a.distance_m->0))
    } else {
        None
    }
}

/// The alert that is due in this round.
pub fn decide_alert(approach: &Approach, alerts: &AlertSettings, state: &AlertState, now: u64) -> (r: Option<Alert>)
    ensures
        r == due_alert(approach@, *alerts, *state, now),
{
    if approach.at_target {
        return Some(Alert::Arriving);
    }
    if approach.passed {
        return Some(Alert::Passed);
    }
    if alerts.alert_stations > 0 && !state.stations_alerted {
        match approach.stations_away {
            Some(stations) => {
                if stations <= alerts.alert_stations {
                    return Some(Alert::Stations(stations));
                }
            },
            None => {},
        }
    }
    if alerts.alert_distance_m > 0 {
        match approach.distance_m {
            Some(distance) => {
                if distance <= alerts.alert_distance_m && now.saturating_sub(state.last_distance_alert)
                    >= alerts.repeat_secs {
                    return Some(Alert::Distance(distance));
                }
            },
            None => {},
        }
    }
    None
}

/// The message of an alert.
pub open spec fn alert_text_of(alert: Alert, w: WatchSpecModel, a: ApproachModel) -> Seq<char> {
    match alert {
        Alert::Stations(stations) => "🔔 <b>"@ + escaped(w.line_name) + "</b> 还有 "@ + dec(stations as nat) + " 站到「"@ + escaped(w.station_name) + "」\n"@ + escaped(a.label) + "\n"@ + joined(approach_parts(a, "直线 "@), " · "@) + "\n\n准备上车。"@,
        Alert::Distance(distance) => "🔔 <b>"@ + escaped(w.line_name) + "</b> 距离「"@ + escaped(w.station_name) + "」直线只剩 "@ + dec(distance as nat) + " 米\n"@ + escaped(a.label) + "\n"@ + joined(approach_parts(a, "直线 "@), " · "@),
        Alert::Arriving => "🚏 <b>"@ + escaped(w.line_name) + "</b> 正在进站「"@ + escaped(w.station_name) + "」\n"@ + escaped(a.label) + "\n\n盯车结束。"@,
        Alert::Passed => "⚪️ <b>"@ + escaped(w.line_name) + "</b> 已驶过「"@ + escaped(w.station_name) + "」\n"@ + escaped(a.label) + "\n\n盯车结束，需要的话再开一次。"@,
    }
}

/// The message of an alert.
pub fn alert_text(alert: Alert, spec: &WatchSpec, approach: &Approach) -> (r: String)
    ensures
        r@ == alert_text_of(alert, spec@, approach@),
{
    let line = escape(spec.line_name.as_str());
    let station = escape(spec.station_name.as_str());
    let who = escape(approach.label.as_str());
    let detail = join(&approach_list(approach, "直线 "), " · ");
    match alert {
        Alert::Stations(stations) => {
            let mut t = copy("🔔 <b>");
            t.append(line.as_str());
            t.append("</b> 还有 ");
            t.append(decimal(stations as u64).as_str());
            t.append(" 站到「");
            t.append(station.as_str());
            t.append("」\n");
            t.append(who.as_str());
            t.append("\n");
            t.append(detail.as_str());
            t.append("\n\n准备上车。");
            t
        },
        Alert::Distance(distance) => {
            let mut t = copy("🔔 <b>");
            t.append(line.as_str());
            t.append("</b> 距离「");
            t.append(station.as_str());
            t.append("」直线只剩 ");
            t.append(decimal(distance as u64).as_str());
            t.append(" 米\n");
            t.append(who.as_str());
            t.append("\n");
            t.append(detail.as_str());
            t
        },
        Alert::Arriving => {
            let mut t = copy("🚏 <b>");
            t.append(line.as_str());
            t.append("</b> 正在进站「");
            t.append(station.as_str());
            t.append("」\n");
            t.append(who.as_str());
            t.append("\n\n盯车结束。");
            t
        },
        Alert::Passed => {
            let mut t = copy("⚪️ <b>");
            t.append(line.as_str());
            t.append("</b> 已驶过「");
            t.append(station.as_str());
            t.append("」\n");
            t.append(who.as_str());
            t.append("\n\n盯车结束，需要的话再开一次。");
            t
        },
    }
}

// ─── the rounds of a watch ───

/// What a watch keeps from round to round.
#[derive(Debug, Clone, Copy, PartialEq, Eq, Structural)]
pub struct WatchState {
    pub alerts: AlertState,
    /// Failures in a row.
    pub errors: u32,
}

impl WatchState {
    /// A watch that begins.
    pub fn new() -> (r: WatchState)
        ensures
            r == fresh_watch(),
    {
        WatchState { alerts: AlertState::default(), errors: 0 }
    }
}

/// A watch that begins.
pub open spec fn fresh_watch() -> WatchState {
    WatchState { alerts: AlertState { stations_alerted: false, last_distance_alert: 0 }, errors: 0 }
}

/// Why a watch ends before a round.
pub open spec fn end_before_round(banned: bool, alerts: AlertSettings, started_at: u64, now: u64) -> Option<Seq<char>> {
    if banned {
        Some("账号已被停用，盯车结束。"@)
    } else if (if now >= started_at {
        now - started_at
    } else {
        0
    }) >= alerts.max_minutes * 60 {
        Some("⏱ 已达到最长盯车时间，盯车结束。"@)
    } else {
        None
    }
}

/// Why the watch ends before this round; nothing where it goes on.
pub fn begin_round(banned: bool, alerts: &AlertSettings, started_at: u64, now: u64) -> (r: Option<&'static str>)
    requires
        alerts.max_minutes * 60 <= u64::MAX,
    ensures
        opt_str(r) == end_before_round(banned, *alerts, started_at, now),
{
    if banned {
        return Some("账号已被停用，盯车结束。");
    }
    if now.saturating_sub(started_at) >= alerts.max_minutes * 60 {
        return Some("⏱ 已达到最长盯车时间，盯车结束。");
    }
    None
}

/// What comes of a round: the card, and the alert with its message.
pub struct Round {
    pub card: String,
    pub alert: Option<(Alert, String)>,
}

/// The alert of a round and its message.
pub open spec fn round_alert(
    w: WatchSpecModel,
    approach: Option<ApproachModel>,
    alerts: AlertSettings,
    state: AlertState,
    now: u64,
) -> Option<(Alert, Seq<char>)> {
    match approach {
        Some(a) => match due_alert(a, alerts, state, now) {
            Some(alert) => Some((alert, alert_text_of(alert, w, a))),
            None => None,
        },
        None => None,
    }
}

/// The card and the alert of a round in which the live data came; failures are forgotten.
pub fn observe(
    state: &mut WatchState,
    spec: &WatchSpec,
    stops: &[LineStop],
    realtime: &RealTimeData,
    alerts: &AlertSettings,
    clock: &str,
    now: u64,
) -> (r: Round)
    ensures
        *final(state) == (WatchState { errors: 0, ..*old(state) }),
        ({
            let approach = located(realtime@, LineStop::models(stops@), spec@.order, spec@.target_bus);
            &&& r.card@ == watch_card_of(spec@, approach, *alerts, realtime@.run_state, clock@)
            &&& match (r.alert, round_alert(spec@, approach, *alerts, old(state).alerts, now)) {
                (Some((a, text)), Some((b, wanted))) => a == b && text@ == wanted,
                (None, None) => true,
                _ => false,
            }
        }),
{
    state.errors = 0;
    let target: Option<&str> = match &spec.target_bus {
        Some(bus) => Some(bus.as_str()),
        None => None,
    };
    assert(opt_str(target) == spec@.target_bus);
    match locate(realtime, stops, spec.order, target) {
        Some(approach) => {
            let card = watch_card(spec, Some(&approach), alerts, realtime.run_state, clock);
            let alert = match decide_alert(&approach, alerts, &state.alerts, now) {
                Some(alert) => Some((alert, alert_text(alert, spec, &approach))),
                None => None,
            };
            Round { card: card, alert: alert }
        },
        None => {
            let card = watch_card(spec, None, alerts, realtime.run_state, clock);
            Round { card: card, alert: None }
        },
    }
}

/// What was sent is remembered.
pub open spec fn remembered(state: AlertState, alert: Alert, sent_at: u64) -> AlertState {
    match alert {
        Alert::Stations(_) => AlertState { stations_alerted: true, ..state },
        Alert::Distance(_) => AlertState { last_distance_alert: sent_at, ..state },
        _ => state,
    }
}

/// Remembers that an alert was sent; the message that ends the watch, where it is over.
pub fn after_alert(state: &mut WatchState, alert: Alert, sent_at: u64) -> (r: Option<&'static str>)
    ensures
        *final(state) == (WatchState { alerts: remembered(old(state).alerts, alert, sent_at), ..*old(state) }),
        opt_str(r) == if ends_watch(alert) {
            Some("盯车已结束。"@)
        } else {
            None
        },
        r is Some <==> alert is Arriving || alert is Passed,
        alert is Stations ==> final(state).alerts.stations_alerted,
        alert is Distance ==> final(state).alerts.last_distance_alert == sent_at,
        !(alert is Stations) ==> final(state).alerts.stations_alerted == old(state).alerts.stations_alerted,
        !(alert is Distance) ==> final(state).alerts.last_distance_alert == old(state).alerts.last_distance_alert,
{
    match alert {
        Alert::Stations(_) => {
            state.alerts.stations_alerted = true;
        },
        Alert::Distance(_) => {
            state.alerts.last_distance_alert = sent_at;
        },
        _ => {},
    }
    if alert.is_final() {
        Some("盯车已结束。")
    } else {
        None
    }
}

/// The message that ends a watch that fails once more after `errors` failures in a row.
pub open spec fn given_up(errors: u32, error: Seq<char>) -> Option<Seq<char>> {
    if errors + 1 >= MAX_CONSECUTIVE_ERRORS {
        Some("连续 "@ + dec((errors + 1) as nat) + " 次获取实时数据失败，盯车已停止。\n"@ + error)
    } else {
        None
    }
}

/// Counts a round in which the live data could not be had; the message that ends the watch, where it
/// is given up.
pub fn on_failure(state: &mut WatchState, error: &str) -> (r: Option<String>)
    requires
        old(state).errors < u32::MAX,
    ensures
        *final(state) == (WatchState { errors: (old(state).errors + 1) as u32, ..*old(state) }),
        opt_view(r) == given_up(old(state).errors, error@),
{
    state.errors = state.errors + 1;
    if state.errors >= MAX_CONSECUTIVE_ERRORS {
        let mut t = copy("连续 ");
        t.append(decimal(state.errors as u64).as_str());
        t.append(" 次获取实时数据失败，盯车已停止。\n");
        t.append(error);
        Some(t)
    } else {
        None
    }
}

/// How many seconds to wait until the next round: at least one.
pub fn pause_secs(alerts: &AlertSettings) -> (r: u64)
    ensures
        r == if alerts.poll_secs < 1 {
            1
        } else {
            alerts.poll_secs
        },
        r >= 1,
        r >= alerts.poll_secs,
        r == 1 || r == alerts.poll_secs,
{
    if alerts.poll_secs < 1 {
        1
    } else {
        alerts.poll_secs
    }
}

// ─── what holds of every watch ───

/// A round of a watch: what is seen, the settings, when it is decided and when the alert is sent.
pub struct Turn {
    pub approach: Option<ApproachModel>,
    pub alerts: AlertSettings,
    pub now: u64,
    pub sent_at: u64,
}

/// The alert of a round.
pub open spec fn turn_alert(turn: Turn, state: AlertState) -> Option<Alert> {
    match turn.approach {
        Some(a) => due_alert(a, turn.alerts, state, turn.now),
        None => None,
    }
}

/// The state after some rounds.
pub open spec fn state_after(turns: Seq<Turn>) -> AlertState
    decreases turns.len(),
{
    if turns.len() == 0 {
        fresh_watch().alerts
    } else {
        let before = state_after(turns.drop_last());
        match turn_alert(turns.last(), before) {
            Some(alert) => remembered(before, alert, turns.last().sent_at),
            None => before,
        }
    }
}

/// The alert of the `i`th round.
pub open spec fn alert_in(turns: Seq<Turn>, i: int) -> Option<Alert> {
    turn_alert(turns[i], state_after(turns.take(i)))
}

proof fn lemma_state_step(turns: Seq<Turn>, i: int)
    requires
        0 <= i < turns.len(),
    ensures
        state_after(turns.take(i + 1)) == match alert_in(turns, i) {
            Some(alert) => remembered(state_after(turns.take(i)), alert, turns[i].sent_at),
            None => state_after(turns.take(i)),
        },
{
    assert(turns.take(i + 1).drop_last() == turns.take(i));
    assert(turns.take(i + 1).last() == turns[i]);
}

proof fn lemma_alerted_stays(turns: Seq<Turn>, i: int, j: int)
    requires
        0 <= i <= j <= turns.len(),
        state_after(turns.take(i)).stations_alerted,
    ensures
        state_after(turns.take(j)).stations_alerted,
    decreases j - i,
{
    if i < j {
        lemma_state_step(turns, i);
        lemma_alerted_stays(turns, i + 1, j);
    }
}

/// In a watch the alert by stops is sent at most once.
pub proof fn law_station_alert_comes_once(turns: Seq<Turn>, i: int, j: int)
    requires
        0 <= i < j < turns.len(),
        alert_in(turns, i) is Some && alert_in(turns, i)->0 is Stations,
    ensures
        !(alert_in(turns, j) is Some && alert_in(turns, j)->0 is Stations),
{
    lemma_state_step(turns, i);
    lemma_alerted_stays(turns, i + 1, j);
}

proof fn lemma_last_distance(turns: Seq<Turn>, i: int, j: int)
    requires
        0 <= i < j <= turns.len(),
        alert_in(turns, i) is Some && alert_in(turns, i)->0 is Distance,
        forall|k: int|
            i < k < j ==> !(alert_in(turns, k) is Some && (#[trigger] alert_in(turns, k))->0 is Distance),
    ensures
        state_after(turns.take(j)).last_distance_alert == turns[i].sent_at,
    decreases j - i,
{
    lemma_state_step(turns, j - 1);
    if i + 1 < j {
        lemma_last_distance(turns, i, j - 1);
        assert(!(alert_in(turns, j - 1) is Some && alert_in(turns, j - 1)->0 is Distance));
    }
}

/// Between two alerts by distance in a row at least the repeat interval goes by, from when the first
/// was sent.
pub proof fn law_distance_alerts_keep_their_interval(turns: Seq<Turn>, i: int, j: int)
    requires
        0 <= i < j < turns.len(),
        alert_in(turns, i) is Some && alert_in(turns, i)->0 is Distance,
        alert_in(turns, j) is Some && alert_in(turns, j)->0 is Distance,
        forall|k: int|
            i < k < j ==> !(alert_in(turns, k) is Some && (#[trigger] alert_in(turns, k))->0 is Distance),
    ensures
        turns[j].alerts.repeat_secs > 0 ==> turns[j].now - turns[i].sent_at >= turns[j].alerts.repeat_secs,
{
    lemma_last_distance(turns, i, j);
}

/// A threshold of zero switches its alert off.
pub proof fn law_zero_switches_off(a: ApproachModel, alerts: AlertSettings, state: AlertState, now: u64)
    ensures
        alerts.alert_stations == 0 ==> !(due_alert(a, alerts, state, now) is Some && due_alert(
            a,
            alerts,
            state,
            now,
        )->0 is Stations),
        alerts.alert_distance_m == 0 ==> !(due_alert(a, alerts, state, now) is Some && due_alert(
            a,
            alerts,
            state,
            now,
        )->0 is Distance),
{
}

/// A vehicle that arrives or has passed always gives an alert, and the watch ends with it; no other
/// alert ends it.
pub proof fn law_arrival_ends_the_watch(a: ApproachModel, alerts: AlertSettings, state: AlertState, now: u64)
    ensures
        (a.at_target || a.passed) <==> (due_alert(a, alerts, state, now) is Some && ends_watch(
            due_alert(a, alerts, state, now)->0,
        )),
{
}

// ─── what the settings mean ───

/// The alert by stops comes exactly when the vehicle is at most as many stops away as was set.
pub proof fn law_stop_alert_comes_at_the_set_stop(
    a: ApproachModel,
    alerts: AlertSettings,
    state: AlertState,
    now: u64,
    stations: u32,
)
    requires
        !a.at_target,
        !a.passed,
        alerts.alert_stations > 0,
        !state.stations_alerted,
        a.stations_away == Some(stations),
    ensures
        due_alert(a, alerts, state, now) == Some(Alert::Stations(stations)) <==> stations <= alerts.alert_stations,
        stations > alerts.alert_stations ==> !(due_alert(a, alerts, state, now) is Some && due_alert(
            a,
            alerts,
            state,
            now,
        )->0 is Stations),
{
}

/// Where no alert by stops is due, the alert by distance comes exactly when the vehicle is within the set
/// distance and the set time has gone by since the last one.
pub proof fn law_distance_alert_comes_within_the_set_distance(
    a: ApproachModel,
    alerts: AlertSettings,
    state: AlertState,
    now: u64,
    metres: u32,
)
    requires
        !a.at_target,
        !a.passed,
        alerts.alert_stations == 0 || state.stations_alerted || a.stations_away is None || a.stations_away->0
            > alerts.alert_stations,
        alerts.alert_distance_m > 0,
        a.distance_m == Some(metres),
        state.last_distance_alert <= now,
    ensures
        due_alert(a, alerts, state, now) == Some(Alert::Distance(metres)) <==> metres <= alerts.alert_distance_m
            && state.last_distance_alert + alerts.repeat_secs <= now,
        due_alert(a, alerts, state, now) is Some <==> due_alert(a, alerts, state, now) == Some(Alert::Distance(metres)),
{
}

/// A vehicle at the boarding stop is announced as arriving, and one that has passed it as gone, whatever
/// the settings are and whatever was sent; nobody is alerted to a vehicle of which neither stops nor metres
/// are known.
pub proof fn law_arrival_is_announced(a: ApproachModel, alerts: AlertSettings, state: AlertState, now: u64)
    ensures
        due_alert(a, alerts, state, now) == Some(Alert::Arriving) <==> a.at_target,
        due_alert(a, alerts, state, now) == Some(Alert::Passed) <==> a.passed && !a.at_target,
        !a.at_target && !a.passed && a.stations_away is None && a.distance_m is None ==> due_alert(a, alerts, state, now) is None,
{
}

/// A watch of a user who is not banned ends by itself exactly when the set number of minutes has gone by;
/// that of a banned user ends at once.
pub proof fn law_watch_lasts_the_set_time(banned: bool, alerts: AlertSettings, started_at: u64, now: u64)
    requires
        started_at <= now,
    ensures
        end_before_round(banned, alerts, started_at, now) is Some <==> banned || started_at + alerts.max_minutes * 60 <= now,
        banned ==> end_before_round(banned, alerts, started_at, now) == Some("账号已被停用，盯车结束。"@),
        !banned && started_at + alerts.max_minutes * 60 <= now ==> end_before_round(banned, alerts, started_at, now) == Some(
            "⏱ 已达到最长盯车时间，盯车结束。"@,
        ),
{
}

/// A watch is given up at the sixth failure in a row and not before; the message says why.
pub proof fn law_sixth_failure_ends_the_watch(errors: u32, error: Seq<char>)
    requires
        errors < u32::MAX,
    ensures
        given_up(errors, error) is Some <==> errors >= 5,
        given_up(errors, error) is Some ==> has(given_up(errors, error)->0, dec((errors + 1) as nat)) && has(
            given_up(errors, error)->0,
            error,
        ),
{
    broadcast use group_has;
}

/// A watch that waits for a certain vehicle follows the first of that number and no other: how far off that
/// one is, whether it is arriving and whether it has passed; there is nothing to follow while the source has
/// none of that number.
pub proof fn law_chosen_vehicle_is_followed(
    realtime: RealTimeDataModel,
    stops: Seq<LineStopModel>,
    order: u32,
    target: Seq<char>,
    i: int,
)
    ensures
        0 <= i < realtime.buses.len() && realtime.buses[i].bus_id == target && (forall|k: int|
            0 <= k < i ==> (#[trigger] realtime.buses[k]).bus_id != target) ==> ({
            let found = located(realtime, stops, order, Some(target));
            let bus = realtime.buses[i];
            let (left, passed, at_target) = progress_of(bus.station_index, bus.is_arriving, stops, order);
            &&& found is Some && !found->0.anonymous
            &&& found->0.stations_away == left && found->0.passed == passed && found->0.at_target == at_target
            &&& found->0.distance_m == distance_of(bus, stops, order)
            &&& found->0.label == described(bus, i, stops, order).identity
            &&& found->0.location == Some(described(bus, i, stops, order).location)
            &&& found->0.minutes_away is Some == bus.travel_time_secs is Some
            &&& bus.travel_time_secs is Some ==> 60 * (found->0.minutes_away->0 - 1) < bus.travel_time_secs->0 <= 60
                * found->0.minutes_away->0
        }),
        (forall|k: int| 0 <= k < realtime.buses.len() ==> (#[trigger] realtime.buses[k]).bus_id != target) ==> located(
            realtime,
            stops,
            order,
            Some(target),
        ) is None,
{
    let p = |b: BusPositionModel| b.bus_id == target;
    if 0 <= i < realtime.buses.len() && realtime.buses[i].bus_id == target && (forall|k: int|
        0 <= k < i ==> (#[trigger] realtime.buses[k]).bus_id != target) {
        lemma_first_where(realtime.buses, p, i);
    }
    if forall|k: int| 0 <= k < realtime.buses.len() ==> (#[trigger] realtime.buses[k]).bus_id != target {
        lemma_first_where(realtime.buses, p, realtime.buses.len() as int);
    }
}

/// Where no vehicle was chosen, one with the fewest stops left is followed, and never one that has passed
/// while another has not.
pub proof fn law_followed_has_the_fewest_stops_left(
    realtime: RealTimeDataModel,
    stops: Seq<LineStopModel>,
    order: u32,
    i: int,
    left: u32,
)
    requires
        0 <= i < realtime.buses.len(),
        progress_of(realtime.buses[i].station_index, realtime.buses[i].is_arriving, stops, order) == (
            Some(left),
            false,
            left == 0,
        ),
        left < u32::MAX,
    ensures
        ({
            let found = located(realtime, stops, order, None);
            &&& found is Some && !found->0.anonymous && !found->0.passed
            &&& found->0.stations_away is Some && found->0.stations_away->0 <= left
        }),
{
    let buses = realtime.buses;
    law_nearest_is_nearest(buses, stops, order, buses.len());
    assert(!has_passed(buses[i], stops, order));
    let best = nearest(buses, stops, order, buses.len())->0;
    assert(!nearer(nearness(buses[i], stops, order), nearness(buses[best], stops, order)));
}

/// Of vehicles with equally many stops left the one is followed that comes in the least time.
pub proof fn law_followed_comes_first(
    realtime: RealTimeDataModel,
    stops: Seq<LineStopModel>,
    order: u32,
    i: int,
    secs: u32,
)
    requires
        0 <= i < realtime.buses.len(),
        !has_passed(realtime.buses[i], stops, order),
        realtime.buses[i].travel_time_secs == Some(secs),
        secs < u32::MAX,
        located(realtime, stops, order, None) is Some,
        located(realtime, stops, order, None)->0.stations_away is Some,
        progress_of(realtime.buses[i].station_index, realtime.buses[i].is_arriving, stops, order).0 == located(
            realtime,
            stops,
            order,
            None,
        )->0.stations_away,
    ensures
        ({
            let minutes = located(realtime, stops, order, None)->0.minutes_away;
            minutes is Some && 60 * (minutes->0 - 1) < secs
        }),
{
    let buses = realtime.buses;
    law_nearest_is_nearest(buses, stops, order, buses.len());
    let best = nearest(buses, stops, order, buses.len())->0;
    assert(!nearer(nearness(buses[i], stops, order), nearness(buses[best], stops, order)));
}

/// The estimate that stands in where no vehicle is on its way is the one with the fewest stops left, and
/// with the fewest minutes among those.
pub proof fn law_soonest_estimate_stands_in(
    realtime: RealTimeDataModel,
    stops: Seq<LineStopModel>,
    order: u32,
    i: int,
)
    requires
        forall|k: int| 0 <= k < realtime.buses.len() ==> has_passed(#[trigger] realtime.buses[k], stops, order),
        0 <= i < realtime.arrival_estimates.len(),
    ensures
        ({
            let found = located(realtime, stops, order, None);
            let e = realtime.arrival_estimates[i];
            &&& found is Some && found->0.anonymous && !found->0.passed
            &&& found->0.stations_away is Some && found->0.stations_away->0 <= e.stations_away
            &&& found->0.minutes_away is Some && (found->0.stations_away->0 == e.stations_away ==> found->0.minutes_away->0
                <= e.minutes_away)
            &&& found->0.at_target <==> found->0.stations_away->0 == 0
            &&& exists|k: int|
                0 <= k < realtime.arrival_estimates.len() && (#[trigger] realtime.arrival_estimates[k]).stations_away
                    == found->0.stations_away->0 && realtime.arrival_estimates[k].minutes_away == found->0.minutes_away->0 && Some(
                    realtime.arrival_estimates[k].distance_m,
                ) == found->0.distance_m
        }),
{
    law_nearest_is_nearest(realtime.buses, stops, order, realtime.buses.len());
    lemma_soonest(realtime.arrival_estimates, realtime.arrival_estimates.len());
    let k = soonest(realtime.arrival_estimates, realtime.arrival_estimates.len());
    assert(realtime.arrival_estimates[k].minutes_away == located(realtime, stops, order, None)->0.minutes_away->0);
}

proof fn lemma_soonest(list: Seq<ArrivalDetail>, n: nat)
    requires
        1 <= n <= list.len(),
    ensures
        0 <= soonest(list, n) < n,
        forall|i: int| 0 <= i < n ==> !sooner(#[trigger] list[i], list[soonest(list, n)]),
    decreases n,
{
    if n > 1 {
        lemma_soonest(list, (n - 1) as nat);
    }
}

/// The list of vehicles is in order: none that has passed stands before one that has not, and of those that
/// have not passed none with more stops left stands before one with fewer; each vehicle stands in it once.
pub proof fn law_vehicles_are_listed_by_stops_left(
    buses: Seq<BusPositionModel>,
    stops: Seq<LineStopModel>,
    order: u32,
)
    requires
        buses.len() <= usize::MAX,
    ensures
        ({
            let shown = by_nearness(buses, stops, order);
            &&& shown.len() == buses.len()
            &&& forall|k: usize| k < buses.len() ==> #[trigger] shown.contains(k)
            &&& forall|i: int, j: int|
                0 <= i < j < shown.len() ==> ({
                    let a = buses[(#[trigger] shown[i]) as int];
                    let b = buses[(#[trigger] shown[j]) as int];
                    let (a_left, a_passed, _) = progress_of(a.station_index, a.is_arriving, stops, order);
                    let (b_left, b_passed, _) = progress_of(b.station_index, b.is_arriving, stops, order);
                    &&& a_passed ==> b_passed
                    &&& !b_passed && a_left is Some && b_left is Some ==> a_left->0 <= b_left->0
                    &&& !b_passed && a_left == b_left && a.travel_time_secs is Some && b.travel_time_secs is Some
                        ==> a.travel_time_secs->0 <= b.travel_time_secs->0
                })
        }),
{
    let keys = nearness_keys(buses, stops, order);
    let shown = by_nearness(buses, stops, order);
    lemma_stable_order_is_one(keys);
    assert forall|i: int, j: int| 0 <= i < j < shown.len() implies ({
        let a = buses[(#[trigger] shown[i]) as int];
        let b = buses[(#[trigger] shown[j]) as int];
        let (a_left, a_passed, _) = progress_of(a.station_index, a.is_arriving, stops, order);
        let (b_left, b_passed, _) = progress_of(b.station_index, b.is_arriving, stops, order);
        &&& a_passed ==> b_passed
        &&& !b_passed && a_left is Some && b_left is Some ==> a_left->0 <= b_left->0
        &&& !b_passed && a_left == b_left && a.travel_time_secs is Some && b.travel_time_secs is Some ==> a.travel_time_secs->0
            <= b.travel_time_secs->0
    }) by {
        let a = buses[shown[i] as int];
        let b = buses[shown[j] as int];
        assert(goes_before(keys, shown[i] as int, shown[j] as int));
        assert(keys[shown[i] as int] == nearness_key(a, stops, order));
        assert(keys[shown[j] as int] == nearness_key(b, stops, order));
        if !has_passed(b, stops, order) {
            lemma_key_order(a, b, stops, order);
        }
    }
}

proof fn lemma_stop_alert(
    a: Seq<char>,
    line: Seq<char>,
    b: Seq<char>,
    x: Seq<char>,
    n: Seq<char>,
    y: Seq<char>,
    m: Seq<char>,
    open: Seq<char>,
    stop: Seq<char>,
    close: Seq<char>,
    nl: Seq<char>,
    who: Seq<char>,
    r1: Seq<char>,
    r2: Seq<char>,
    r3: Seq<char>,
)
    ensures
        ({
            let text = a + line + (b + x) + n + (y + m + open) + stop + (close + nl) + who + r1 + r2 + r3;
            has(text, line) && has(text, x + n + y) && has(text, open + stop + close) && has(text, who)
        }),
{
    let text = a + line + (b + x) + n + (y + m + open) + stop + (close + nl) + who + r1 + r2 + r3;
    let i = a.len() as int;
    assert(text.subrange(i, i + line.len()) =~= line);
    assert(occurs_at(text, line, i));
    let j = i + line.len() + b.len();
    assert(text.subrange(j, j + (x + n + y).len()) =~= x + n + y);
    assert(occurs_at(text, x + n + y, j));
    let k = j + (x + n + y).len() + m.len();
    assert(text.subrange(k, k + (open + stop + close).len()) =~= open + stop + close);
    assert(occurs_at(text, open + stop + close, k));
    let l = k + (open + stop + close).len() + nl.len();
    assert(text.subrange(l, l + who.len()) =~= who);
    assert(occurs_at(text, who, l));
}

proof fn lemma_distance_alert(
    a: Seq<char>,
    line: Seq<char>,
    b: Seq<char>,
    open: Seq<char>,
    stop: Seq<char>,
    close: Seq<char>,
    m: Seq<char>,
    x: Seq<char>,
    n: Seq<char>,
    y: Seq<char>,
    nl: Seq<char>,
    who: Seq<char>,
    r1: Seq<char>,
    r2: Seq<char>,
)
    ensures
        ({
            let text = a + line + (b + open) + stop + (close + m + x) + n + (y + nl) + who + r1 + r2;
            has(text, line) && has(text, x + n + y) && has(text, open + stop + close) && has(text, who)
        }),
{
    let text = a + line + (b + open) + stop + (close + m + x) + n + (y + nl) + who + r1 + r2;
    let i = a.len() as int;
    assert(text.subrange(i, i + line.len()) =~= line);
    assert(occurs_at(text, line, i));
    let k = i + line.len() + b.len();
    assert(text.subrange(k, k + (open + stop + close).len()) =~= open + stop + close);
    assert(occurs_at(text, open + stop + close, k));
    let j = k + (open + stop + close).len() + m.len();
    assert(text.subrange(j, j + (x + n + y).len()) =~= x + n + y);
    assert(occurs_at(text, x + n + y, j));
    let l = j + (x + n + y).len() + nl.len();
    assert(text.subrange(l, l + who.len()) =~= who);
    assert(occurs_at(text, who, l));
}

proof fn lemma_last_alert(
    a: Seq<char>,
    line: Seq<char>,
    b: Seq<char>,
    x: Seq<char>,
    open: Seq<char>,
    stop: Seq<char>,
    close: Seq<char>,
    nl: Seq<char>,
    who: Seq<char>,
    r: Seq<char>,
    over: Seq<char>,
    end: Seq<char>,
)
    ensures
        ({
            let text = a + line + (b + x + open) + stop + (close + nl) + who + (r + over + end);
            has(text, line) && has(text, x) && has(text, open + stop + close) && has(text, who) && has(text, over)
        }),
{
    let text = a + line + (b + x + open) + stop + (close + nl) + who + (r + over + end);
    let i = a.len() as int;
    assert(text.subrange(i, i + line.len()) =~= line);
    assert(occurs_at(text, line, i));
    let j = i + line.len() + b.len();
    assert(text.subrange(j, j + x.len()) =~= x);
    assert(occurs_at(text, x, j));
    let k = j + x.len();
    assert(text.subrange(k, k + (open + stop + close).len()) =~= open + stop + close);
    assert(occurs_at(text, open + stop + close, k));
    let l = k + (open + stop + close).len() + nl.len();
    assert(text.subrange(l, l + who.len()) =~= who);
    assert(occurs_at(text, who, l));
    let m = l + who.len() + r.len();
    assert(text.subrange(m, m + over.len()) =~= over);
    assert(occurs_at(text, over, m));
}

proof fn lemma_alert_words()
    ensures
        "</b> 还有 "@ == "</b> "@ + "还有 "@,
        " 站到「"@ == " 站"@ + "到"@ + "「"@,
        "」\n"@ == "」"@ + "\n"@,
        "</b> 距离「"@ == "</b> 距离"@ + "「"@,
        "」直线只剩 "@ == "」"@ + "直线"@ + "只剩 "@,
        " 米\n"@ == " 米"@ + "\n"@,
        "</b> 正在进站「"@ == "</b> "@ + "正在进站"@ + "「"@,
        "</b> 已驶过「"@ == "</b> "@ + "已驶过"@ + "「"@,
        "\n\n盯车结束。"@ == "\n\n"@ + "盯车结束"@ + "。"@,
        "\n\n盯车结束，需要的话再开一次。"@ == "\n\n"@ + "盯车结束"@ + "，需要的话再开一次。"@,
{
    reveal_strlit("</b> 还有 ");
    reveal_strlit("</b> ");
    reveal_strlit("还有 ");
    reveal_strlit(" 站到「");
    reveal_strlit(" 站");
    reveal_strlit("到");
    reveal_strlit("「");
    reveal_strlit("」\n");
    reveal_strlit("」");
    reveal_strlit("\n");
    reveal_strlit("</b> 距离「");
    reveal_strlit("</b> 距离");
    reveal_strlit("」直线只剩 ");
    reveal_strlit("直线");
    reveal_strlit("只剩 ");
    reveal_strlit(" 米\n");
    reveal_strlit(" 米");
    reveal_strlit("</b> 正在进站「");
    reveal_strlit("正在进站");
    reveal_strlit("</b> 已驶过「");
    reveal_strlit("已驶过");
    reveal_strlit("\n\n盯车结束。");
    reveal_strlit("\n\n");
    reveal_strlit("盯车结束");
    reveal_strlit("。");
    reveal_strlit("\n\n盯车结束，需要的话再开一次。");
    reveal_strlit("，需要的话再开一次。");
}

/// The message of an alert names the line, the boarding stop and the vehicle, and gives the stops or the
/// metres that are left.
pub proof fn law_alert_says_what_it_is_about(alert: Alert, w: WatchSpecModel, a: ApproachModel)
    ensures
        ({
            let text = alert_text_of(alert, w, a);
            &&& has(text, escaped(w.line_name)) && has(text, "「"@ + escaped(w.station_name) + "」"@) && has(text, escaped(a.label))
            &&& match alert {
                Alert::Stations(n) => has(text, "还有 "@ + dec(n as nat) + " 站"@),
                Alert::Distance(n) => has(text, "只剩 "@ + dec(n as nat) + " 米"@),
                Alert::Arriving => has(text, "正在进站"@) && has(text, "盯车结束"@),
                Alert::Passed => has(text, "已驶过"@) && has(text, "盯车结束"@),
            }
        }),
{
    let line = escaped(w.line_name);
    let stop = escaped(w.station_name);
    let who = escaped(a.label);
    let detail = joined(approach_parts(a, "直线 "@), " · "@);
    lemma_alert_words();
    match alert {
        Alert::Stations(n) => {
            lemma_stop_alert(
                "🔔 <b>"@,
                line,
                "</b> "@,
                "还有 "@,
                dec(n as nat),
                " 站"@,
                "到"@,
                "「"@,
                stop,
                "」"@,
                "\n"@,
                who,
                "\n"@,
                detail,
                "\n\n准备上车。"@,
            );
        },
        Alert::Distance(n) => {
            lemma_distance_alert(
                "🔔 <b>"@,
                line,
                "</b> 距离"@,
                "「"@,
                stop,
                "」"@,
                "直线"@,
                "只剩 "@,
                dec(n as nat),
                " 米"@,
                "\n"@,
                who,
                "\n"@,
                detail,
            );
        },
        Alert::Arriving => {
            lemma_last_alert(
                "🚏 <b>"@,
                line,
                "</b> "@,
                "正在进站"@,
                "「"@,
                stop,
                "」"@,
                "\n"@,
                who,
                "\n\n"@,
                "盯车结束"@,
                "。"@,
            );
        },
        Alert::Passed => {
            lemma_last_alert(
                "⚪️ <b>"@,
                line,
                "</b> "@,
                "已驶过"@,
                "「"@,
                stop,
                "」"@,
                "\n"@,
                who,
                "\n\n"@,
                "盯车结束"@,
                "，需要的话再开一次。"@,
            );
        },
    }
}

} // verus!
