//! Where a vehicle is on its line.
use crate::models::{LineStop, LineStopModel};
use crate::seqs::{first_where, lemma_first_where};
use vstd::prelude::*;

verus! {

/// The position of the stop with that number; the number of stops where there is none.
pub open spec fn stop_index(stops: Seq<LineStopModel>, order: u32) -> int {
    first_where(stops, |s: LineStopModel| s.order == order)
}

/// The position of the stop with that number; the number of stops where there is none.
pub fn find_stop(stops: &[LineStop], order: u32) -> (r: usize)
    ensures
        r == stop_index(LineStop::models(stops@), order),
        r <= stops@.len(),
{
    let ghost list = LineStop::models(stops@);
    let ghost p = |s: LineStopModel| s.order == order;
    let mut i: usize = 0;
    while i < stops.len()
        invariant
            i <= stops@.len(),
            list == LineStop::models(stops@),
            p == (|s: LineStopModel| s.order == order),
            forall|j: int| 0 <= j < i ==> !p(#[trigger] list[j]),
        decreases stops.len() - i,
    {
        assert(list[i as int] == stops@[i as int]@);
        if stops[i].order == order {
            proof {
                lemma_first_where(list, p, i as int);
            }
            return i;
        }
        i += 1;
    }
    proof {
        lemma_first_where(list, p, i as int);
    }
    i
}

/// How a vehicle stands to the boarding stop: how many stops are left, whether it has passed it, and
/// whether it is arriving there. Where either stop is not on the line nothing is known.
pub open spec fn progress_of(station_index: u32, is_arriving: bool, stops: Seq<LineStopModel>, order: u32) -> (
    Option<u32>,
    bool,
    bool,
) {
    let at = stop_index(stops, station_index);
    let target = stop_index(stops, order);
    if at < stops.len() && target < stops.len() {
        (
            if target >= at {
                Some((target - at) as u32)
            } else {
                None
            },
            at > target || (at == target && !is_arriving),
            at == target && is_arriving,
        )
    } else {
        (None, false, false)
    }
}

/// How a vehicle stands to the boarding stop.
pub fn progress(station_index: u32, is_arriving: bool, stops: &[LineStop], order: u32) -> (r: (Option<u32>, bool, bool))
    ensures
        r == progress_of(station_index, is_arriving, LineStop::models(stops@), order),
{
    let at: usize = find_stop(stops, station_index);
    let target: usize = find_stop(stops, order);
    assert(LineStop::models(stops@).len() == stops@.len());
    if at < stops.len() && target < stops.len() {
        let left: Option<u32> = if target >= at {
            Some(
                #[verifier::truncate]
                ((target - at) as u32),
            )
        } else {
            None
        };
        (left, at > target || (at == target && !is_arriving), at == target && is_arriving)
    } else {
        (None, false, false)
    }
}

/// A vehicle has not both passed the boarding stop and still to arrive there; one that is arriving
/// has no stop left.
pub proof fn law_progress_is_consistent(station_index: u32, is_arriving: bool, stops: Seq<LineStopModel>, order: u32)
    ensures
        ({
            let (left, passed, at_target) = progress_of(station_index, is_arriving, stops, order);
            &&& !(passed && at_target)
            &&& at_target ==> left == Some(0u32)
            &&& left is None && stop_index(stops, station_index) < stops.len() && stop_index(stops, order)
                < stops.len() ==> passed
        }),
{
}

/// The stops that are left are those from where a vehicle is to the boarding stop, counted along the line;
/// it has passed once it is behind that stop or has left it, and is at it while it is arriving there.
pub proof fn law_progress_counts_along_the_line(
    station_index: u32,
    is_arriving: bool,
    stops: Seq<LineStopModel>,
    order: u32,
    at: int,
    target: int,
)
    requires
        0 <= at < stops.len() <= u32::MAX,
        0 <= target < stops.len(),
        stops[at].order == station_index,
        stops[target].order == order,
        forall|k: int| 0 <= k < at ==> (#[trigger] stops[k]).order != station_index,
        forall|k: int| 0 <= k < target ==> (#[trigger] stops[k]).order != order,
    ensures
        ({
            let (left, passed, at_target) = progress_of(station_index, is_arriving, stops, order);
            &&& at <= target ==> left is Some && at + left->0 == target
            &&& at > target ==> left is None && passed
            &&& at < target ==> !passed && !at_target
            &&& at == target ==> at_target == is_arriving && passed == !is_arriving
        }),
{
    lemma_first_where(stops, |s: LineStopModel| s.order == station_index, at);
    lemma_first_where(stops, |s: LineStopModel| s.order == order, target);
}

/// Of a vehicle or a boarding stop that is not on the line nothing is known.
pub proof fn law_progress_needs_both_stops(station_index: u32, is_arriving: bool, stops: Seq<LineStopModel>, order: u32)
    requires
        (forall|k: int| 0 <= k < stops.len() ==> (#[trigger] stops[k]).order != station_index) || (forall|k: int|
            0 <= k < stops.len() ==> (#[trigger] stops[k]).order != order),
    ensures
        progress_of(station_index, is_arriving, stops, order) == (None::<u32>, false, false),
{
    if forall|k: int| 0 <= k < stops.len() ==> (#[trigger] stops[k]).order != station_index {
        lemma_first_where(stops, |s: LineStopModel| s.order == station_index, stops.len() as int);
    } else {
        lemma_first_where(stops, |s: LineStopModel| s.order == order, stops.len() as int);
    }
}

} // verus!
