//! The messages: what the sources deliver as HTML text for Telegram.
//!
//! Where there is no estimate the text says so; an estimate that is tied to no vehicle is never
//! given to one.
use crate::models::{
    ArrivalDetail, ArrivalEstimate, BusPosition, BusPositionModel, CrowdLevel, Fare, FareModel, LineDetail, LineDetailModel, LineStop,
    LineStopModel, RealTimeData, RealTimeDataModel, RunState, ServiceTime, ServiceTimeModel, StopStatus, Terminal, TerminalModel,
};
use crate::seqs::{lemma_first_where, lemma_first_where_is};
use crate::stops::{find_stop, progress, progress_of, stop_index};
use crate::store::{
    capped, field_label, field_unit, habit_refs, hour_sum, most_queried, setting, suggested, AlertField, AlertSettings, Habit, HabitModel,
    UserState, UserStateModel, WatchSpec, WatchSpecModel,
};
use crate::text::{
    begins, blank, chars_of, copy, dec, dec2, dec_int, decimal, decimal2, decimal_int, has, is_blank, join, joined, group_has, lemma_has_before, lemma_has_behind, lemma_has_itself, lemma_has_through, lemma_joined_begins, lemma_joined_has, occurs_at, opt_view, text_of,
    views,
};
use crate::watch::{approach_of, by_nearness, nearest_first, Approach, ApproachModel};
use vstd::prelude::*;

verus! {

/// How a character is written in HTML.
pub open spec fn escaped_char(c: char) -> Seq<char> {
    if c == '&' {
        "&amp;"@
    } else if c == '<' {
        "&lt;"@
    } else if c == '>' {
        "&gt;"@
    } else {
        seq![c]
    }
}

/// How a text is written in HTML.
pub open spec fn escaped(s: Seq<char>) -> Seq<char>
    decreases s.len(),
{
    if s.len() == 0 {
        Seq::empty()
    } else {
        escaped(s.drop_last()) + escaped_char(s.last())
    }
}

/// A text as it is written in HTML: the three characters with a meaning of their own are replaced.
pub fn escape(raw: &str) -> (r: String)
    ensures
        r@ == escaped(raw@),
{
    let chars = chars_of(raw);
    let mut out = String::new();
    let mut i: usize = 0;
    assert(chars@.take(0) == Seq::<char>::empty());
    while i < chars.len()
        invariant
            i <= chars@.len(),
            out@ == escaped(chars@.take(i as int)),
        decreases chars.len() - i,
    {
        assert(chars@.take(i + 1).drop_last() == chars@.take(i as int));
        let c: char = chars[i];
        if c == '&' {
            out.append("&amp;");
        } else if c == '<' {
            out.append("&lt;");
        } else if c == '>' {
            out.append("&gt;");
        } else {
            let ghost before = out@;
            out.push(c);
            assert(out@ == before + seq![c]);
        }
        i += 1;
    }
    assert(chars@.take(i as int) == chars@);
    out
}

/// No markup is left in a text that was written in HTML.
pub proof fn law_escaped_text_has_no_markup(s: Seq<char>)
    ensures
        forall|i: int| 0 <= i < escaped(s).len() ==> #[trigger] escaped(s)[i] != '<' && escaped(s)[i] != '>',
    decreases s.len(),
{
    if s.len() > 0 {
        law_escaped_text_has_no_markup(s.drop_last());
        reveal_strlit("&amp;");
        reveal_strlit("&lt;");
        reveal_strlit("&gt;");
        let front = escaped(s.drop_last());
        let tail = escaped_char(s.last());
        assert forall|i: int| 0 <= i < escaped(s).len() implies #[trigger] escaped(s)[i] != '<' && escaped(s)[i] != '>' by {
            if i < front.len() {
                assert(escaped(s)[i] == front[i]);
            } else {
                assert(escaped(s)[i] == tail[i - front.len()]);
            }
        }
    }
}

/// A text without markup is written as it is.
pub proof fn law_plain_text_stays(s: Seq<char>)
    requires
        forall|i: int| 0 <= i < s.len() ==> #[trigger] s[i] != '&' && s[i] != '<' && s[i] != '>',
    ensures
        escaped(s) == s,
    decreases s.len(),
{
    if s.len() > 0 {
        let front = s.drop_last();
        assert forall|i: int| 0 <= i < front.len() implies #[trigger] front[i] != '&' && front[i] != '<' && front[i] != '>' by {
            assert(front[i] == s[i]);
        }
        law_plain_text_stays(front);
        assert(s[s.len() - 1] == s.last());
        assert(front + seq![s.last()] =~= s);
    }
}

/// A text is written in HTML piece by piece.
pub proof fn law_text_is_escaped_by_pieces(a: Seq<char>, b: Seq<char>)
    ensures
        escaped(a + b) == escaped(a) + escaped(b),
    decreases b.len(),
{
    if b.len() == 0 {
        assert(a + b =~= a);
    } else {
        law_text_is_escaped_by_pieces(a, b.drop_last());
        assert((a + b).drop_last() =~= a + b.drop_last());
    }
}

/// `s` has one of the characters of markup at `i`, written out.
pub open spec fn entity_at(s: Seq<char>, i: int) -> bool {
    occurs_at(s, "&amp;"@, i) || occurs_at(s, "&lt;"@, i) || occurs_at(s, "&gt;"@, i)
}

proof fn lemma_occurs_in_front(front: Seq<char>, tail: Seq<char>, sub: Seq<char>, i: int)
    requires
        occurs_at(front, sub, i),
    ensures
        occurs_at(front + tail, sub, i),
{
    assert((front + tail).subrange(i, i + sub.len()) =~= front.subrange(i, i + sub.len()));
}

/// An ampersand in a text that was written in HTML begins one of the characters that are written out.
pub proof fn law_ampersand_begins_an_entity(s: Seq<char>)
    ensures
        forall|i: int| 0 <= i < escaped(s).len() && #[trigger] escaped(s)[i] == '&' ==> entity_at(escaped(s), i),
    decreases s.len(),
{
    if s.len() > 0 {
        law_ampersand_begins_an_entity(s.drop_last());
        reveal_strlit("&amp;");
        reveal_strlit("&lt;");
        reveal_strlit("&gt;");
        let front = escaped(s.drop_last());
        let tail = escaped_char(s.last());
        let all = escaped(s);
        assert(all == front + tail);
        assert forall|i: int| 0 <= i < all.len() && #[trigger] all[i] == '&' implies entity_at(all, i) by {
            if i < front.len() {
                assert(all[i] == front[i]);
                if occurs_at(front, "&amp;"@, i) {
                    lemma_occurs_in_front(front, tail, "&amp;"@, i);
                } else if occurs_at(front, "&lt;"@, i) {
                    lemma_occurs_in_front(front, tail, "&lt;"@, i);
                } else {
                    lemma_occurs_in_front(front, tail, "&gt;"@, i);
                }
            } else {
                assert(all[i] == tail[i - front.len()]);
                assert(i == front.len());
                assert(all.subrange(i, i + tail.len()) =~= tail);
            }
        }
    }
}

/// `s` with `to` for each `from` in it, from the left.
pub open spec fn replaced(s: Seq<char>, from: Seq<char>, to: Seq<char>) -> Seq<char>
    decreases s.len(),
{
    if from.len() == 0 || s.len() < from.len() {
        s
    } else if begins(s, from) {
        to + replaced(s.skip(from.len() as int), from, to)
    } else {
        seq![s[0]] + replaced(s.skip(1), from, to)
    }
}

proof fn lemma_replaced_behind(x: Seq<char>, rest: Seq<char>, from: Seq<char>, to: Seq<char>)
    requires
        from.len() >= 2,
        forall|i: int| 0 <= i < x.len() && #[trigger] x[i] == from[0] ==> i + 1 < x.len() && x[i + 1] != from[1],
    ensures
        replaced(x + rest, from, to) == x + replaced(rest, from, to),
    decreases x.len(),
{
    let all = x + rest;
    if x.len() == 0 {
        assert(all =~= rest);
    } else if all.len() < from.len() {
        assert(replaced(rest, from, to) == rest);
    } else {
        assert(!begins(all, from)) by {
            if begins(all, from) {
                assert(all.subrange(0, from.len() as int)[0] == all[0]);
                assert(all.subrange(0, from.len() as int)[1] == all[1]);
                assert(x[0] == all[0]);
                assert(x[1] == all[1]);
            }
        }
        let tail = x.skip(1);
        assert forall|i: int| 0 <= i < tail.len() && #[trigger] tail[i] == from[0] implies i + 1 < tail.len() && tail[i + 1]
            != from[1] by {
            assert(tail[i] == x[i + 1]);
        }
        lemma_replaced_behind(tail, rest, from, to);
        assert(all.skip(1) =~= tail + rest);
        assert(seq![all[0]] + (tail + replaced(rest, from, to)) =~= x + replaced(rest, from, to));
    }
}

/// How a character is written while `left` of the three are still written out: `<` is put back first, `&`
/// last.
spec fn partly_char(c: char, left: int) -> Seq<char> {
    if (c == '<' && left < 3) || (c == '>' && left < 2) || (c == '&' && left < 1) {
        seq![c]
    } else {
        escaped_char(c)
    }
}

spec fn partly(s: Seq<char>, left: int) -> Seq<char>
    decreases s.len(),
{
    if s.len() == 0 {
        Seq::empty()
    } else {
        partly_char(s[0], left) + partly(s.skip(1), left)
    }
}

proof fn lemma_partly(s: Seq<char>)
    ensures
        partly(s, 3) == escaped(s),
        partly(s, 0) == s,
    decreases s.len(),
{
    if s.len() > 0 {
        let first = seq![s[0]];
        let rest = s.skip(1);
        lemma_partly(rest);
        law_text_is_escaped_by_pieces(first, rest);
        assert(first + rest =~= s);
        assert(escaped(first) == escaped_char(s[0])) by {
            assert(first.drop_last() =~= Seq::<char>::empty());
            assert(escaped(first.drop_last()) + escaped_char(first.last()) =~= escaped_char(s[0]));
        }
    }
}

proof fn lemma_put_back(s: Seq<char>, left: int, from: Seq<char>, to: char)
    requires
        left == 3 && from == "&lt;"@ && to == '<' || left == 2 && from == "&gt;"@ && to == '>' || left == 1 && from == "&amp;"@ && to
            == '&',
    ensures
        replaced(partly(s, left), from, seq![to]) == partly(s, left - 1),
    decreases s.len(),
{
    reveal_strlit("&amp;");
    reveal_strlit("&lt;");
    reveal_strlit("&gt;");
    if s.len() > 0 {
        let c = s[0];
        let head = partly_char(c, left);
        let rest = partly(s.skip(1), left);
        lemma_put_back(s.skip(1), left, from, to);
        if c == to {
            let all = head + rest;
            assert(head == from);
            assert(all.subrange(0, from.len() as int) =~= from);
            assert(all.skip(from.len() as int) =~= rest);
        } else {
            assert(head == partly_char(c, left - 1));
            assert(head.len() == 1 ==> head[0] == c && c != '&');
            lemma_replaced_behind(head, rest, from, seq![to]);
        }
    }
}

/// A text that was written in HTML is had back by putting `<`, `>` and then `&` in place of what they
/// are written as.
pub proof fn law_escaped_text_reads_back(s: Seq<char>)
    ensures
        replaced(
            replaced(replaced(escaped(s), "&lt;"@, seq!['<']), "&gt;"@, seq!['>']),
            "&amp;"@,
            seq!['&'],
        ) == s,
{
    lemma_partly(s);
    lemma_put_back(s, 3, "&lt;"@, '<');
    lemma_put_back(s, 2, "&gt;"@, '>');
    lemma_put_back(s, 1, "&amp;"@, '&');
}

/// Whether a line is running, in words.
pub open spec fn run_state_text_of(state: RunState) -> Seq<char> {
    match state {
        RunState::Running => "运营中"@,
        RunState::NotOperating => "尚未运营"@,
        RunState::Stopped => "已停运"@,
        RunState::NoRealtime => "暂无实时数据"@,
    }
}

/// Whether a line is running, in words.
pub fn run_state_text(state: RunState) -> (r: &'static str)
    ensures
        r@ == run_state_text_of(state),
{
    match state {
        RunState::Running => "运营中",
        RunState::NotOperating => "尚未运营",
        RunState::Stopped => "已停运",
        RunState::NoRealtime => "暂无实时数据",
    }
}

/// How full a vehicle is, in words.
pub open spec fn crowd_text_of(level: CrowdLevel) -> Option<Seq<char>> {
    match level {
        CrowdLevel::Spacious => Some("宽敞有座"@),
        CrowdLevel::Normal => Some("适中"@),
        CrowdLevel::Crowded => Some("拥挤站立"@),
        CrowdLevel::Full => Some("满载"@),
        CrowdLevel::Unknown => None,
    }
}

/// How full a vehicle is, in words.
pub fn crowd_text(level: CrowdLevel) -> (r: Option<&'static str>)
    ensures
        match (r, crowd_text_of(level)) {
            (Some(a), Some(b)) => a@ == b,
            (None, None) => true,
            _ => false,
        },
{
    match level {
        CrowdLevel::Spacious => Some("宽敞有座"),
        CrowdLevel::Normal => Some("适中"),
        CrowdLevel::Crowded => Some("拥挤站立"),
        CrowdLevel::Full => Some("满载"),
        CrowdLevel::Unknown => None,
    }
}

/// What is particular about a stop.
pub open spec fn stop_status_note_of(status: StopStatus) -> Option<Seq<char>> {
    match status {
        StopStatus::Normal => None,
        StopStatus::NotStopping => Some("不停靠"@),
        StopStatus::BoardOnly => Some("仅上客"@),
        StopStatus::AlightOnly => Some("仅下客"@),
        StopStatus::Temporary => Some("临时站"@),
        StopStatus::OnDemand => Some("招呼站"@),
        StopStatus::Express => Some("快线跳站"@),
    }
}

/// What is particular about a stop.
pub fn stop_status_note(status: StopStatus) -> (r: Option<&'static str>)
    ensures
        match (r, stop_status_note_of(status)) {
            (Some(a), Some(b)) => a@ == b,
            (None, None) => true,
            _ => false,
        },
{
    match status {
        StopStatus::Normal => None,
        StopStatus::NotStopping => Some("不停靠"),
        StopStatus::BoardOnly => Some("仅上客"),
        StopStatus::AlightOnly => Some("仅下客"),
        StopStatus::Temporary => Some("临时站"),
        StopStatus::OnDemand => Some("招呼站"),
        StopStatus::Express => Some("快线跳站"),
    }
}

/// A number between two words, where there is a number.
pub open spec fn counted_part(before: Seq<char>, n: Option<u32>, after: Seq<char>) -> Seq<Seq<char>> {
    match n {
        Some(n) => seq![before + dec(n as nat) + after],
        None => Seq::empty(),
    }
}

fn number_part(before: &str, n: u32, after: &str) -> (r: String)
    ensures
        r@ == before@ + dec(n as nat) + after@,
{
    let mut r = copy(before);
    r.append(decimal(n as u64).as_str());
    r.append(after);
    r
}

/// Puts a number between two words at the end of the list, where there is a number.
fn push_part(parts: &mut Vec<String>, before: &str, n: Option<u32>, after: &str)
    ensures
        views(final(parts)@) == views(old(parts)@) + counted_part(before@, n, after@),
{
    let ghost had = views(parts@);
    match n {
        Some(n) => {
            parts.push(number_part(before, n, after));
        },
        None => {},
    }
    assert(views(parts@) =~= had + counted_part(before@, n, after@));
}

/// The parts of an arrival in words.
pub open spec fn arrival_parts(stations_away: u32, minutes_away: Option<u32>, distance_m: Option<u32>) -> Seq<Seq<char>> {
    seq![dec(stations_away as nat) + " 站"@] + counted_part("约 "@, minutes_away, " 分钟"@) + counted_part(
        ""@,
        distance_m,
        " 米"@,
    )
}

/// An arrival in words.
pub open spec fn arrival_text_of(arrival: ArrivalEstimate) -> Seq<char> {
    match arrival {
        ArrivalEstimate::Arriving => "即将到站"@,
        ArrivalEstimate::Approaching { stations_away, minutes_away, distance_m } => joined(
            arrival_parts(stations_away, minutes_away, distance_m),
            " · "@,
        ),
        ArrivalEstimate::NoService => "暂无班次"@,
        ArrivalEstimate::Unknown => "暂无到站预估"@,
    }
}

/// An arrival in words.
pub fn arrival_text(arrival: &ArrivalEstimate) -> (r: String)
    ensures
        r@ == arrival_text_of(*arrival),
{
    match arrival {
        ArrivalEstimate::Arriving => copy("即将到站"),
        ArrivalEstimate::Approaching { stations_away, minutes_away, distance_m } => {
            let mut parts: Vec<String> = Vec::new();
            let mut first = decimal(*stations_away as u64);
            first.append(" 站");
            parts.push(first);
            assert(views(parts@) =~= seq![dec(*stations_away as nat) + " 站"@]);
            push_part(&mut parts, "约 ", *minutes_away, " 分钟");
            push_part(&mut parts, "", *distance_m, " 米");
            join(&parts, " · ")
        },
        ArrivalEstimate::NoService => copy("暂无班次"),
        ArrivalEstimate::Unknown => copy("暂无到站预估"),
    }
}

/// A vehicle in words.
#[derive(Debug)]
pub struct BusView {
    pub identity: String,
    pub location: String,
    pub estimate: String,
    pub passed: bool,
    pub at_target: bool,
    pub description: Option<String>,
}

/// What a [`BusView`] holds.
#[verifier::ext_equal]
pub struct BusViewModel {
    pub identity: Seq<char>,
    pub location: Seq<char>,
    pub estimate: Seq<char>,
    pub passed: bool,
    pub at_target: bool,
    pub description: Option<Seq<char>>,
}

impl View for BusView {
    type V = BusViewModel;

    open spec fn view(&self) -> BusViewModel {
        BusViewModel {
            identity: self.identity@,
            location: self.location@,
            estimate: self.estimate@,
            passed: self.passed,
            at_target: self.at_target,
            description: opt_view(self.description),
        }
    }
}

impl Clone for BusView {
    fn clone(&self) -> (r: Self)
        ensures
            r@ == self@,
    {
        let r = BusView {
            identity: self.identity.clone(),
            location: self.location.clone(),
            estimate: self.estimate.clone(),
            passed: self.passed,
            at_target: self.at_target,
            description: self.description.clone(),
        };
        r
    }
}

/// Minutes, rounded up.
pub open spec fn minutes_up(seconds: u32) -> u32 {
    ((seconds + 59) / 60) as u32
}

/// Minutes, rounded up.
pub fn whole_minutes(seconds: u32) -> (r: u32)
    ensures
        r == minutes_up(seconds),
{
    if seconds % 60 == 0 {
        seconds / 60
    } else {
        seconds / 60 + 1
    }
}

/// How a vehicle is called: by its number, or by its place in the list where it has none.
pub open spec fn identity_of(bus_id: Seq<char>, index: int) -> Seq<char> {
    if is_blank(bus_id) {
        "车辆 "@ + dec((index + 1) as nat) + "（上游未提供编号）"@
    } else {
        "车辆 "@ + bus_id
    }
}

/// Where a vehicle is.
pub open spec fn location_of(bus: BusPositionModel, stops: Seq<LineStopModel>) -> Seq<char> {
    let at = stop_index(stops, bus.station_index);
    if at >= stops.len() {
        "当前站点未匹配"@
    } else if bus.is_arriving {
        "正在进站："@ + stops[at].name
    } else if at + 1 < stops.len() {
        "已离开："@ + stops[at].name + " → 开往 "@ + stops[at + 1].name
    } else {
        "已离开："@ + stops[at].name + "（末站）"@
    }
}

/// How far off a vehicle that has not passed is, piece by piece.
pub open spec fn estimate_parts(bus: BusPositionModel, stops: Seq<LineStopModel>, target_order: u32) -> Seq<Seq<char>> {
    let at = stop_index(stops, bus.station_index);
    let target = stop_index(stops, target_order);
    let gap = if at < stops.len() && target > at {
        seq!["站序相差 "@ + dec((target - at) as nat) + " 站"@]
    } else {
        Seq::empty()
    };
    let time = match bus.travel_time_secs {
        Some(seconds) => seq![
            if seconds == 0 {
                "即将到站"@
            } else {
                "约 "@ + dec(minutes_up(seconds) as nat) + " 分钟"@
            },
        ],
        None => Seq::empty(),
    };
    let distance = match bus.distance_shown_m {
        Some(metres) => seq!["距目标 "@ + dec_int(metres as int) + " 米"@],
        None => Seq::empty(),
    };
    gap + time + distance
}

/// When a vehicle comes to the boarding stop, in words.
pub open spec fn estimate_of(bus: BusPositionModel, stops: Seq<LineStopModel>, target_order: u32) -> Seq<char> {
    let (_, passed, at_target) = progress_of(bus.station_index, bus.is_arriving, stops, target_order);
    if passed {
        "已驶过你的上车站"@
    } else if at_target {
        "正在进入你的上车站"@
    } else if stop_index(stops, target_order) < stops.len() && estimate_parts(bus, stops, target_order).len() > 0 {
        joined(estimate_parts(bus, stops, target_order), " · "@)
    } else {
        "暂无该车到站预估"@
    }
}

/// A text, unless it is blank.
pub open spec fn unless_blank(s: Option<Seq<char>>) -> Option<Seq<char>> {
    match s {
        Some(s) => if is_blank(s) {
            None
        } else {
            Some(s)
        },
        None => None,
    }
}

/// A text, unless it is blank.
pub fn not_blank(s: &Option<String>) -> (r: Option<String>)
    ensures
        opt_view(r) == unless_blank(opt_view(*s)),
{
    match s {
        Some(s) => if blank(s.as_str()) {
            None
        } else {
            Some(s.clone())
        },
        None => None,
    }
}

/// A vehicle in words.
pub open spec fn described(bus: BusPositionModel, index: int, stops: Seq<LineStopModel>, target_order: u32) -> BusViewModel {
    let (_, passed, at_target) = progress_of(bus.station_index, bus.is_arriving, stops, target_order);
    BusViewModel {
        identity: identity_of(bus.bus_id, index),
        location: location_of(bus, stops),
        estimate: estimate_of(bus, stops, target_order),
        passed: passed,
        at_target: at_target,
        description: unless_blank(bus.state_description),
    }
}

fn identity_text(bus_id: &str, index: usize) -> (r: String)
    requires
        index < usize::MAX,
    ensures
        r@ == identity_of(bus_id@, index as int),
{
    let mut r = copy("车辆 ");
    if blank(bus_id) {
        r.append(decimal((index + 1) as u64).as_str());
        r.append("（上游未提供编号）");
    } else {
        r.append(bus_id);
    }
    r
}

fn location_text(bus: &BusPosition, stops: &[LineStop]) -> (r: String)
    ensures
        r@ == location_of(bus@, LineStop::models(stops@)),
{
    let ghost list = LineStop::models(stops@);
    let at: usize = find_stop(stops, bus.station_index);
    if at >= stops.len() {
        return copy("当前站点未匹配");
    }
    assert(list[at as int] == stops@[at as int]@);
    if bus.is_arriving {
        let mut r = copy("正在进站：");
        r.append(stops[at].name.as_str());
        r
    } else {
        let mut r = copy("已离开：");
        r.append(stops[at].name.as_str());
        if at + 1 < stops.len() {
            assert(list[at + 1] == stops@[at + 1]@);
            r.append(" → 开往 ");
            r.append(stops[at + 1].name.as_str());
        } else {
            r.append("（末站）");
        }
        r
    }
}

fn estimate_list(bus: &BusPosition, stops: &[LineStop], target_order: u32) -> (r: Vec<String>)
    ensures
        views(r@) == estimate_parts(bus@, LineStop::models(stops@), target_order),
{
    let at: usize = find_stop(stops, bus.station_index);
    let target: usize = find_stop(stops, target_order);
    let mut parts: Vec<String> = Vec::new();
    if at < stops.len() && target > at {
        let mut gap = copy("站序相差 ");
        gap.append(decimal((target - at) as u64).as_str());
        gap.append(" 站");
        parts.push(gap);
    }
    match bus.travel_time_secs {
        Some(seconds) => {
            if seconds == 0 {
                parts.push(copy("即将到站"));
            } else {
                parts.push(number_part("约 ", whole_minutes(seconds), " 分钟"));
            }
        },
        None => {},
    }
    match bus.distance_shown_m {
        Some(metres) => {
            let mut far = copy("距目标 ");
            far.append(decimal_int(metres).as_str());
            far.append(" 米");
            parts.push(far);
        },
        None => {},
    }
    assert(views(parts@) =~= estimate_parts(bus@, LineStop::models(stops@), target_order));
    parts
}

/// A vehicle in words; `index` is its place in the list of vehicles.
pub fn describe_bus(bus: &BusPosition, index: usize, stops: &[LineStop], target_order: u32) -> (r: BusView)
    requires
        index < usize::MAX,
    ensures
        r@ == described(bus@, index as int, LineStop::models(stops@), target_order),
{
    let (_, passed, at_target) = progress(bus.station_index, bus.is_arriving, stops, target_order);
    let target: usize = find_stop(stops, target_order);
    let estimate = if passed {
        copy("已驶过你的上车站")
    } else if at_target {
        copy("正在进入你的上车站")
    } else if target < stops.len() {
        let parts = estimate_list(bus, stops, target_order);
        assert(views(parts@).len() == parts@.len());
        if parts.len() == 0 {
            copy("暂无该车到站预估")
        } else {
            join(&parts, " · ")
        }
    } else {
        copy("暂无该车到站预估")
    };
    BusView {
        identity: identity_text(bus.bus_id.as_str(), index),
        location: location_text(bus, stops),
        estimate: estimate,
        passed: passed,
        at_target: at_target,
        description: not_blank(&bus.state_description),
    }
}

/// The name of a terminal, or what stands for it.
pub open spec fn terminal_or(t: TerminalModel, other: Seq<char>) -> Seq<char> {
    match t {
        TerminalModel::Named(name) => name,
        TerminalModel::Unknown => other,
    }
}

fn terminal_text(t: &Terminal, other: &str) -> (r: String)
    ensures
        r@ == terminal_or(t@, other@),
{
    match t {
        Terminal::Named(name) => name.clone(),
        Terminal::Unknown => copy(other),
    }
}

/// A time of day, or a dash.
pub open spec fn service_or_dash(t: Option<ServiceTimeModel>) -> Seq<char> {
    match t {
        Some(t) => t.text,
        None => "—"@,
    }
}

fn service_text(t: &Option<ServiceTime>) -> (r: String)
    ensures
        r@ == service_or_dash(
            match *t {
                Some(t) => Some(t@),
                None => None,
            },
        ),
{
    match t {
        Some(t) => t.text.clone(),
        None => copy("—"),
    }
}

/// A fare, or that it is not known.
pub open spec fn fare_or_unknown(f: FareModel) -> Seq<char> {
    match f {
        FareModel::Text(text) => text,
        FareModel::Unknown => "暂无信息"@,
    }
}

fn fare_text(f: &Fare) -> (r: String)
    ensures
        r@ == fare_or_unknown(f@),
{
    match f {
        Fare::Text(text) => text.clone(),
        Fare::Unknown => copy("暂无信息"),
    }
}

/// A line of its own for a note, where there is one that is not blank.
pub open spec fn note_line(before: Seq<char>, note: Option<Seq<char>>, after: Seq<char>) -> Seq<char> {
    match unless_blank(note) {
        Some(note) => before + escaped(note) + after,
        None => Seq::empty(),
    }
}

fn note_text(before: &str, note: &Option<String>, after: &str) -> (r: String)
    ensures
        r@ == note_line(before@, opt_view(*note), after@),
{
    match not_blank(note) {
        Some(note) => {
            let mut r = copy(before);
            r.append(escape(note.as_str()).as_str());
            r.append(after);
            r
        },
        None => String::new(),
    }
}

/// The text of the page of a line.
pub open spec fn line_detail_text_of(d: LineDetailModel, city_label: Seq<char>) -> Seq<char> {
    "🚌 <b>"@ + escaped(d.name) + "</b>\n"@ + escaped(terminal_or(d.topology.start, "起点待更新"@)) + " → "@ + escaped(terminal_or(d.topology.end, "终点待更新"@)) + "\n<i>"@ + escaped(city_label) + "</i>\n\n首班 "@ + service_or_dash(d.meta.first_service) + " · 末班 "@ + service_or_dash(d.meta.last_service) + " · 票价 "@ + escaped(fare_or_unknown(d.meta.fare)) + "\n共 "@ + dec(d.topology.stations.len()) + " 站"@ + note_line("\n运营单位："@, d.meta.company, ""@) + note_line("\n提示："@, d.meta.notes, ""@) + "\n\n选择你的上车站，查看实时到站："@
}

/// The text of the page of a line.
pub fn line_detail_text(detail: &LineDetail, city_label: &str) -> (r: String)
    ensures
        r@ == line_detail_text_of(detail@, city_label@),
{
    assert(detail@.topology.stations.len() == detail.topology.stations@.len());
    let mut t = copy("🚌 <b>");
    t.append(escape(detail.name.as_str()).as_str());
    t.append("</b>\n");
    t.append(escape(terminal_text(&detail.topology.start, "起点待更新").as_str()).as_str());
    t.append(" → ");
    t.append(escape(terminal_text(&detail.topology.end, "终点待更新").as_str()).as_str());
    t.append("\n<i>");
    t.append(escape(city_label).as_str());
    t.append("</i>\n\n首班 ");
    t.append(service_text(&detail.meta.first_service).as_str());
    t.append(" · 末班 ");
    t.append(service_text(&detail.meta.last_service).as_str());
    t.append(" · 票价 ");
    t.append(escape(fare_text(&detail.meta.fare).as_str()).as_str());
    t.append("\n共 ");
    t.append(decimal(detail.topology.stations.len() as u64).as_str());
    t.append(" 站");
    t.append(note_text("\n运营单位：", &detail.meta.company, "").as_str());
    t.append(note_text("\n提示：", &detail.meta.notes, "").as_str());
    t.append("\n\n选择你的上车站，查看实时到站：");
    t
}

/// The name of the boarding stop.
pub open spec fn boarding_name(stops: Seq<LineStopModel>, order: u32) -> Seq<char> {
    let at = stop_index(stops, order);
    if at < stops.len() {
        stops[at].name
    } else {
        "未选择"@
    }
}

/// What is particular about the boarding stop, in a line of its own.
pub open spec fn boarding_note(stops: Seq<LineStopModel>, order: u32) -> Seq<char> {
    let at = stop_index(stops, order);
    if at < stops.len() {
        match stop_status_note_of(stops[at].status) {
            Some(note) => "站点提示："@ + note + "\n"@,
            None => Seq::empty(),
        }
    } else {
        Seq::empty()
    }
}

/// The sign before a vehicle.
pub open spec fn bus_marker(v: BusViewModel) -> Seq<char> {
    if v.at_target {
        "🟢"@
    } else if v.passed {
        "⚪️"@
    } else {
        "🔵"@
    }
}

/// The lines of a vehicle.
pub open spec fn bus_lines(bus: BusPositionModel, index: int, stops: Seq<LineStopModel>, order: u32) -> Seq<char> {
    let v = described(bus, index, stops, order);
    let name = boarding_name(stops, order);
    bus_marker(v) + " "@ + escaped(v.identity) + "\n   "@ + escaped(v.location) + "\n   到「"@ + escaped(name) + "」："@ + escaped(v.estimate) + "\n"@ + crowd_line(bus.crowd_status) + description_line(v.description)
}

/// How full a vehicle is, in a line of its own.
pub open spec fn crowd_line(level: CrowdLevel) -> Seq<char> {
    match crowd_text_of(level) {
        Some(crowd) => "   车厢："@ + crowd + "\n"@,
        None => Seq::empty(),
    }
}

/// What the source says of a vehicle, in a line of its own.
pub open spec fn description_line(description: Option<Seq<char>>) -> Seq<char> {
    match description {
        Some(text) => "   上游提示："@ + escaped(text) + "\n"@,
        None => Seq::empty(),
    }
}

/// The lines of the first `n` vehicles in the list, the nearest coming first.
pub open spec fn all_bus_lines(buses: Seq<BusPositionModel>, stops: Seq<LineStopModel>, order: u32, n: nat) -> Seq<char>
    decreases n,
{
    if n == 0 {
        Seq::empty()
    } else {
        let at = by_nearness(buses, stops, order)[n - 1] as int;
        all_bus_lines(buses, stops, order, (n - 1) as nat) + bus_lines(buses[at], at, stops, order)
    }
}

/// The vehicles under way, from the nearest to the farthest.
pub open spec fn buses_text(buses: Seq<BusPositionModel>, stops: Seq<LineStopModel>, order: u32) -> Seq<char> {
    if buses.len() > 0 {
        "<b>在途车辆（"@ + dec(buses.len()) + "）</b>\n"@ + all_bus_lines(buses, stops, order, buses.len())
    } else {
        Seq::empty()
    }
}

/// The line of an estimate that is tied to no vehicle.
pub open spec fn estimate_line(e: ArrivalDetail) -> Seq<char> {
    "· "@ + dec(e.stations_away as nat) + " 站 · 约 "@ + dec(e.minutes_away as nat) + " 分钟 · "@ + dec(e.distance_m as nat) + " 米\n"@
}

/// The lines of estimates that are tied to no vehicle.
pub open spec fn estimate_lines(list: Seq<ArrivalDetail>) -> Seq<char>
    decreases list.len(),
{
    if list.len() == 0 {
        Seq::empty()
    } else {
        estimate_lines(list.drop_last()) + estimate_line(list.last())
    }
}

/// The estimates that are tied to no vehicle.
pub open spec fn estimates_text(list: Seq<ArrivalDetail>) -> Seq<char> {
    if list.len() > 0 {
        "\n<b>综合到站预估</b>（上游未关联车辆编号，单独列出）\n"@ + estimate_lines(list)
    } else {
        Seq::empty()
    }
}

/// The text of the page of arrivals.
pub open spec fn live_text_of(
    d: LineDetailModel,
    realtime: RealTimeDataModel,
    order: u32,
    city_label: Seq<char>,
    clock: Seq<char>,
    is_favorite: bool,
) -> Seq<char> {
    "🚌 <b>"@ + escaped(d.name) + "</b>"@ + (if is_favorite { " ⭐"@ } else { ""@ }) + "\n上车站：<b>"@ + escaped(boarding_name(d.topology.stations, order)) + "</b>（第 "@ + dec(order as nat) + " 站）\n状态："@ + run_state_text_of(realtime.run_state) + " · <i>"@ + escaped(city_label) + "</i>\n"@ + boarding_note(d.topology.stations, order) + note_line("计划发车："@, realtime.plan_time, "\n"@) + "\n"@ + (if realtime.buses.len() == 0
        && realtime.arrival_estimates.len() == 0 {
        "当前没有车辆到站预估。\n"@
    } else {
        ""@
    }) + buses_text(realtime.buses, d.topology.stations, order) + estimates_text(realtime.arrival_estimates)
        + "\n更新于 "@ + clock
}

fn boarding_text(stops: &[LineStop], order: u32) -> (r: String)
    ensures
        r@ == boarding_name(LineStop::models(stops@), order),
{
    let at: usize = find_stop(stops, order);
    if at < stops.len() {
        assert(LineStop::models(stops@)[at as int] == stops@[at as int]@);
        stops[at].name.clone()
    } else {
        copy("未选择")
    }
}

fn boarding_note_text(stops: &[LineStop], order: u32) -> (r: String)
    ensures
        r@ == boarding_note(LineStop::models(stops@), order),
{
    let at: usize = find_stop(stops, order);
    if at < stops.len() {
        assert(LineStop::models(stops@)[at as int] == stops@[at as int]@);
        match stop_status_note(stops[at].status) {
            Some(note) => {
                let mut r = copy("站点提示：");
                r.append(note);
                r.append("\n");
                r
            },
            None => String::new(),
        }
    } else {
        String::new()
    }
}

fn bus_text(bus: &BusPosition, index: usize, stops: &[LineStop], order: u32, name: &str) -> (r: String)
    requires
        index < usize::MAX,
        name@ == boarding_name(LineStop::models(stops@), order),
    ensures
        r@ == bus_lines(bus@, index as int, LineStop::models(stops@), order),
{
    let view = describe_bus(bus, index, stops, order);
    let marker = if view.at_target {
        "🟢"
    } else if view.passed {
        "⚪️"
    } else {
        "🔵"
    };
    let mut t = copy(marker);
    t.append(" ");
    t.append(escape(view.identity.as_str()).as_str());
    t.append("\n   ");
    t.append(escape(view.location.as_str()).as_str());
    t.append("\n   到「");
    t.append(escape(name).as_str());
    t.append("」：");
    t.append(escape(view.estimate.as_str()).as_str());
    t.append("\n");
    match crowd_text(bus.crowd_status) {
        Some(crowd) => {
            let mut line = copy("   车厢：");
            line.append(crowd);
            line.append("\n");
            t.append(line.as_str());
        },
        None => {
            assert(t@ + Seq::<char>::empty() == t@);
        },
    }
    match &view.description {
        Some(description) => {
            let mut line = copy("   上游提示：");
            line.append(escape(description.as_str()).as_str());
            line.append("\n");
            t.append(line.as_str());
        },
        None => {
            assert(t@ + Seq::<char>::empty() == t@);
        },
    }
    t
}

fn buses_section(buses: &Vec<BusPosition>, stops: &[LineStop], order: u32, name: &str) -> (r: String)
    requires
        name@ == boarding_name(LineStop::models(stops@), order),
    ensures
        r@ == buses_text(BusPosition::models(buses@), LineStop::models(stops@), order),
{
    let n: usize = buses.len();
    let ghost list = BusPosition::models(buses@);
    if n == 0 {
        return String::new();
    }
    let shown = nearest_first(buses, stops, order);
    let mut body = String::new();
    let mut i: usize = 0;
    while i < n
        invariant
            i <= n,
            n == buses@.len(),
            n == shown@.len(),
            list == BusPosition::models(buses@),
            shown@ == by_nearness(list, LineStop::models(stops@), order),
            forall|k: int| 0 <= k < shown@.len() ==> (#[trigger] shown@[k]) < n,
            name@ == boarding_name(LineStop::models(stops@), order),
            body@ == all_bus_lines(list, LineStop::models(stops@), order, i as nat),
        decreases n - i,
    {
        let at: usize = shown[i];
        assert(list[at as int] == buses@[at as int]@);
        body.append(bus_text(&buses[at], at, stops, order, name).as_str());
        i += 1;
    }
    let mut r = copy("<b>在途车辆（");
    r.append(decimal(n as u64).as_str());
    r.append("）</b>\n");
    r.append(body.as_str());
    r
}

fn estimates_section(list: &Vec<ArrivalDetail>) -> (r: String)
    ensures
        r@ == estimates_text(list@),
{
    if list.len() == 0 {
        return String::new();
    }
    let mut body = String::new();
    let mut i: usize = 0;
    assert(list@.take(0) == Seq::<ArrivalDetail>::empty());
    while i < list.len()
        invariant
            i <= list@.len(),
            body@ == estimate_lines(list@.take(i as int)),
        decreases list.len() - i,
    {
        let e = list[i];
        assert(list@.take(i + 1).drop_last() == list@.take(i as int));
        let mut t = copy("· ");
        t.append(decimal(e.stations_away as u64).as_str());
        t.append(" 站 · 约 ");
        t.append(decimal(e.minutes_away as u64).as_str());
        t.append(" 分钟 · ");
        t.append(decimal(e.distance_m as u64).as_str());
        t.append(" 米\n");
        body.append(t.as_str());
        i += 1;
    }
    assert(list@.take(i as int) == list@);
    let mut r = copy("\n<b>综合到站预估</b>（上游未关联车辆编号，单独列出）\n");
    r.append(body.as_str());
    r
}

/// The text of the page of arrivals.
pub fn live_text(
    detail: &LineDetail,
    realtime: &RealTimeData,
    order: u32,
    city_label: &str,
    clock: &str,
    is_favorite: bool,
) -> (r: String)
    ensures
        r@ == live_text_of(detail@, realtime@, order, city_label@, clock@, is_favorite),
{
    let stops = detail.topology.stations.as_slice();
    let name = boarding_text(stops, order);
    let mut t = copy("🚌 <b>");
    t.append(escape(detail.name.as_str()).as_str());
    t.append("</b>");
    t.append(if is_favorite { " ⭐" } else { "" });
    t.append("\n上车站：<b>");
    t.append(escape(name.as_str()).as_str());
    t.append("</b>（第 ");
    t.append(decimal(order as u64).as_str());
    t.append(" 站）\n状态：");
    t.append(run_state_text(realtime.run_state));
    t.append(" · <i>");
    t.append(escape(city_label).as_str());
    t.append("</i>\n");
    t.append(boarding_note_text(stops, order).as_str());
    t.append(note_text("计划发车：", &realtime.plan_time, "\n").as_str());
    t.append("\n");
    assert(realtime@.buses.len() == realtime.buses@.len());
    t.append(
        if realtime.buses.len() == 0 && realtime.arrival_estimates.len() == 0 {
            "当前没有车辆到站预估。\n"
        } else {
            ""
        },
    );
    t.append(buses_section(&realtime.buses, stops, order, name.as_str()).as_str());
    t.append(estimates_section(&realtime.arrival_estimates).as_str());
    t.append("\n更新于 ");
    t.append(clock);
    t
}

/// What a watch waits for.
pub open spec fn target_of(target_bus: Option<Seq<char>>) -> Seq<char> {
    match target_bus {
        Some(bus) => "车辆 "@ + escaped(bus),
        None => "最近的一班"@,
    }
}

fn target_text(target_bus: &Option<String>) -> (r: String)
    ensures
        r@ == target_of(opt_view(*target_bus)),
{
    match target_bus {
        Some(bus) => {
            let mut r = copy("车辆 ");
            r.append(escape(bus.as_str()).as_str());
            r
        },
        None => copy("最近的一班"),
    }
}

/// How far off the vehicle is, piece by piece; the distance follows `far`.
pub open spec fn approach_parts(a: ApproachModel, far: Seq<char>) -> Seq<Seq<char>> {
    counted_part("还有 "@, a.stations_away, " 站"@) + counted_part("约 "@, a.minutes_away, " 分钟"@) + counted_part(
        far,
        a.distance_m,
        " 米"@,
    )
}

/// How far off the vehicle is, piece by piece; the distance follows `far`.
pub fn approach_list(a: &Approach, far: &str) -> (r: Vec<String>)
    ensures
        views(r@) == approach_parts(a@, far@),
{
    let mut parts: Vec<String> = Vec::new();
    assert(views(parts@) =~= Seq::<Seq<char>>::empty());
    push_part(&mut parts, "还有 ", a.stations_away, " 站");
    push_part(&mut parts, "约 ", a.minutes_away, " 分钟");
    push_part(&mut parts, far, a.distance_m, " 米");
    assert(views(parts@) =~= approach_parts(a@, far@));
    parts
}

/// Where the vehicle is, in a line of its own.
pub open spec fn where_line(location: Option<Seq<char>>) -> Seq<char> {
    match location {
        Some(location) => "   "@ + escaped(location) + "\n"@,
        None => Seq::empty(),
    }
}

/// The lines of the card about the vehicle.
pub open spec fn approach_lines(approach: Option<ApproachModel>) -> Seq<char> {
    match approach {
        None => "上游暂时没有这辆车的位置，继续盯着。\n"@,
        Some(a) => "🚌 "@ + escaped(a.label) + "\n"@ + where_line(a.location) + (if approach_parts(a, ""@).len() == 0 {
            "   上游没有给出到站预估\n"@
        } else {
            "   "@ + joined(approach_parts(a, ""@), " · "@) + "\n"@
        }) + (if a.anonymous {
            "   （该预估未关联车辆编号，仅供参考）\n"@
        } else {
            ""@
        }),
    }
}

/// The rules of the alerts, and when the card was updated.
pub open spec fn rules_text(alerts: AlertSettings, clock: Seq<char>) -> Seq<char> {
    "\n提醒规则：还有 "@ + dec(alerts.alert_stations as nat) + " 站时提醒一次；"@ + dec(alerts.alert_distance_m as nat) + " 米内每 "@ + dec(alerts.repeat_secs as nat) + " 秒重复提醒\n每 "@ + dec(alerts.poll_secs as nat) + " 秒刷新 · 更新于 "@ + clock
}

/// The card of a watch.
pub open spec fn watch_card_of(
    w: WatchSpecModel,
    approach: Option<ApproachModel>,
    alerts: AlertSettings,
    run_state: RunState,
    clock: Seq<char>,
) -> Seq<char> {
    "🔔 <b>盯车中</b> · "@ + escaped(w.line_name) + "\n上车站：<b>"@ + escaped(w.station_name) + "</b>（第 "@ + dec(w.order as nat) + " 站）\n等待："@ + target_of(w.target_bus) + "\n状态："@ + run_state_text_of(run_state) + " · <i>"@ + escaped(w.city_label) + "</i>\n\n"@ + approach_lines(approach) + rules_text(alerts, clock)
}

/// The view of an optional approach.
pub open spec fn opt_approach(a: Option<&Approach>) -> Option<ApproachModel> {
    match a {
        Some(a) => Some(a@),
        None => None,
    }
}

fn approach_section(approach: Option<&Approach>) -> (r: String)
    ensures
        r@ == approach_lines(opt_approach(approach)),
{
    match approach {
        None => copy("上游暂时没有这辆车的位置，继续盯着。\n"),
        Some(a) => {
            let mut t = copy("🚌 ");
            t.append(escape(a.label.as_str()).as_str());
            t.append("\n");
            match &a.location {
                Some(location) => {
                    let mut line = copy("   ");
                    line.append(escape(location.as_str()).as_str());
                    line.append("\n");
                    t.append(line.as_str());
                },
                None => {
                    assert(t@ + Seq::<char>::empty() == t@);
                },
            }
            let parts = approach_list(a, "");
            assert(views(parts@).len() == parts@.len());
            if parts.len() == 0 {
                t.append("   上游没有给出到站预估\n");
            } else {
                let mut line = copy("   ");
                line.append(join(&parts, " · ").as_str());
                line.append("\n");
                t.append(line.as_str());
            }
            t.append(
                if a.anonymous {
                    "   （该预估未关联车辆编号，仅供参考）\n"
                } else {
                    ""
                },
            );
            t
        },
    }
}

fn rules_section(alerts: &AlertSettings, clock: &str) -> (r: String)
    ensures
        r@ == rules_text(*alerts, clock@),
{
    let mut t = copy("\n提醒规则：还有 ");
    t.append(decimal(alerts.alert_stations as u64).as_str());
    t.append(" 站时提醒一次；");
    t.append(decimal(alerts.alert_distance_m as u64).as_str());
    t.append(" 米内每 ");
    t.append(decimal(alerts.repeat_secs as u64).as_str());
    t.append(" 秒重复提醒\n每 ");
    t.append(decimal(alerts.poll_secs as u64).as_str());
    t.append(" 秒刷新 · 更新于 ");
    t.append(clock);
    t
}

/// The card of a watch: the message that is updated in place.
pub fn watch_card(
    spec: &WatchSpec,
    approach: Option<&Approach>,
    alerts: &AlertSettings,
    run_state: RunState,
    clock: &str,
) -> (r: String)
    ensures
        r@ == watch_card_of(spec@, opt_approach(approach), *alerts, run_state, clock@),
{
    let mut t = copy("🔔 <b>盯车中</b> · ");
    t.append(escape(spec.line_name.as_str()).as_str());
    t.append("\n上车站：<b>");
    t.append(escape(spec.station_name.as_str()).as_str());
    t.append("</b>（第 ");
    t.append(decimal(spec.order as u64).as_str());
    t.append(" 站）\n等待：");
    t.append(target_text(&spec.target_bus).as_str());
    t.append("\n状态：");
    t.append(run_state_text(run_state));
    t.append(" · <i>");
    t.append(escape(spec.city_label.as_str()).as_str());
    t.append("</i>\n\n");
    t.append(approach_section(approach).as_str());
    t.append(rules_section(alerts, clock).as_str());
    t
}

/// That an alert is switched off.
pub open spec fn field_note(field: AlertField, value: u64) -> Seq<char> {
    if value == 0 && field is Stations {
        "（已关闭站数提醒）"@
    } else if value == 0 && field is Distance {
        "（已关闭距离提醒）"@
    } else {
        ""@
    }
}

/// The line of one setting.
pub open spec fn setting_line(alerts: AlertSettings, field: AlertField) -> Seq<char> {
    "· "@ + field_label(field) + "："@ + dec(setting(alerts, field) as nat) + " "@ + field_unit(field) + field_note(field, setting(alerts, field)) + "\n"@
}

/// The text of the page of settings.
pub open spec fn alert_settings_text_of(alerts: AlertSettings, using_defaults: bool) -> Seq<char> {
    "⚙️ <b>提醒设置</b>"@ + (if using_defaults {
        "（当前跟随全局默认值）"@
    } else {
        ""@
    }) + "\n\n"@ + setting_line(alerts, AlertField::Poll) + setting_line(alerts, AlertField::Stations) + setting_line(
        alerts,
        AlertField::Distance,
    ) + setting_line(alerts, AlertField::Repeat) + setting_line(alerts, AlertField::MaxMinutes)
        + "\n用下面的 ➖ ➕ 调整，设置对之后的盯车立即生效。"@
}

fn setting_text(alerts: &AlertSettings, field: AlertField) -> (r: String)
    ensures
        r@ == setting_line(*alerts, field),
{
    let value: u64 = alerts.get(field);
    let note = match field {
        AlertField::Stations => if value == 0 {
            "（已关闭站数提醒）"
        } else {
            ""
        },
        AlertField::Distance => if value == 0 {
            "（已关闭距离提醒）"
        } else {
            ""
        },
        _ => "",
    };
    let mut t = copy("· ");
    t.append(field.label());
    t.append("：");
    t.append(decimal(value).as_str());
    t.append(" ");
    t.append(field.unit());
    t.append(note);
    t.append("\n");
    t
}

/// The text of the page of settings.
pub fn alert_settings_text(alerts: &AlertSettings, using_defaults: bool) -> (r: String)
    ensures
        r@ == alert_settings_text_of(*alerts, using_defaults),
{
    let mut t = copy("⚙️ <b>提醒设置</b>");
    t.append(
        if using_defaults {
            "（当前跟随全局默认值）"
        } else {
            ""
        },
    );
    t.append("\n\n");
    t.append(setting_text(alerts, AlertField::Poll).as_str());
    t.append(setting_text(alerts, AlertField::Stations).as_str());
    t.append(setting_text(alerts, AlertField::Distance).as_str());
    t.append(setting_text(alerts, AlertField::Repeat).as_str());
    t.append(setting_text(alerts, AlertField::MaxMinutes).as_str());
    t.append("\n用下面的 ➖ ➕ 调整，设置对之后的盯车立即生效。");
    t
}

// ─── habits ───

/// The largest of some numbers, 0 if there are none.
pub open spec fn largest(values: Seq<u32>) -> u32
    decreases values.len(),
{
    if values.len() == 0 {
        0
    } else {
        let front = largest(values.drop_last());
        if values.last() > front {
            values.last()
        } else {
            front
        }
    }
}

/// The height of a bar, from 0 to 7: the seventh part of the largest value that is nearest, upwards
/// where two are equally near.
pub open spec fn bar_level(value: u32, max: u32) -> int {
    (14 * value + max) / (2 * max)
}

/// The bar of a height.
pub open spec fn block(level: int) -> char {
    if level <= 0 {
        '▁'
    } else if level == 1 {
        '▂'
    } else if level == 2 {
        '▃'
    } else if level == 3 {
        '▄'
    } else if level == 4 {
        '▅'
    } else if level == 5 {
        '▆'
    } else if level == 6 {
        '▇'
    } else {
        '█'
    }
}

/// One bar of the chart.
pub open spec fn bar(value: u32, max: u32) -> char {
    if value == 0 {
        '·'
    } else {
        block(bar_level(value, max))
    }
}

/// The chart of some numbers.
pub open spec fn sparkline_of(values: Seq<u32>) -> Seq<char> {
    if largest(values) == 0 {
        "—"@
    } else {
        values.map_values(|v: u32| bar(v, largest(values)))
    }
}

/// Every bar is one of the eight heights, and the largest value has the highest one.
pub proof fn law_bars_fit(value: u32, max: u32)
    requires
        value <= max,
        max > 0,
    ensures
        0 <= bar_level(value, max) <= 7,
        bar_level(max, max) == 7,
{
    let v = value as int;
    let m = max as int;
    assert(0 <= (14 * v + m) / (2 * m) <= 7) by (nonlinear_arith)
        requires
            0 <= v <= m,
            m > 0,
    ;
    assert((14 * m + m) / (2 * m) == 7) by (nonlinear_arith)
        requires
            m > 0,
    ;
}

fn bar_char(value: u32, max: u32) -> (r: char)
    requires
        max > 0,
    ensures
        r == bar(value, max),
{
    if value == 0 {
        return '·';
    }
    let level: u64 = (14 * (value as u64) + max as u64) / (2 * (max as u64));
    if level == 0 {
        '▁'
    } else if level == 1 {
        '▂'
    } else if level == 2 {
        '▃'
    } else if level == 3 {
        '▄'
    } else if level == 4 {
        '▅'
    } else if level == 5 {
        '▆'
    } else if level == 6 {
        '▇'
    } else {
        '█'
    }
}

/// A chart of some numbers in characters.
pub fn sparkline(values: &[u32]) -> (r: String)
    ensures
        r@ == sparkline_of(values@),
{
    let mut max: u32 = 0;
    let mut i: usize = 0;
    assert(values@.take(0) == Seq::<u32>::empty());
    while i < values.len()
        invariant
            i <= values@.len(),
            max == largest(values@.take(i as int)),
        decreases values.len() - i,
    {
        assert(values@.take(i + 1).drop_last() == values@.take(i as int));
        if values[i] > max {
            max = values[i];
        }
        i += 1;
    }
    assert(values@.take(i as int) == values@);
    if max == 0 {
        return copy("—");
    }
    let mut out: Vec<char> = Vec::new();
    let mut k: usize = 0;
    while k < values.len()
        invariant
            k <= values@.len(),
            max > 0,
            out@ == values@.take(k as int).map_values(|v: u32| bar(v, max)),
        decreases values.len() - k,
    {
        out.push(bar_char(values[k], max));
        assert(out@ =~= values@.take(k + 1).map_values(|v: u32| bar(v, max)));
        k += 1;
    }
    assert(values@.take(k as int) == values@);
    assert(out@ =~= sparkline_of(values@));
    assert(out@.subrange(0, out@.len() as int) == out@);
    text_of(&out, 0, out.len())
}

/// The queries of a user by the hour of the day.
pub open spec fn histogram(habits: Seq<HabitModel>) -> Seq<u32> {
    Seq::new(24, |h: int| capped(hour_sum(habits, h)))
}

/// The position of the largest of the first `n` numbers, the last where there are several.
pub open spec fn peak(values: Seq<u32>, n: nat) -> int
    decreases n,
{
    if n <= 1 {
        0
    } else {
        let before = peak(values, (n - 1) as nat);
        if values[n - 1] >= values[before] {
            n - 1
        } else {
            before
        }
    }
}

/// The lines of the lines looked up most.
pub open spec fn top_lines(habits: Seq<HabitModel>, n: nat) -> Seq<char>
    decreases n,
{
    if n == 0 {
        Seq::empty()
    } else {
        top_lines(habits, (n - 1) as nat) + (dec(n) + ". "@ + escaped(habits[n - 1].label) + " — "@ + dec(
            habits[n - 1].total as nat,
        ) + " 次\n"@)
    }
}

/// The lines of the suggestions.
pub open spec fn suggestion_lines(habits: Seq<HabitModel>, n: nat) -> Seq<char>
    decreases n,
{
    if n == 0 {
        Seq::empty()
    } else {
        suggestion_lines(habits, (n - 1) as nat) + ("· "@ + escaped(habits[n - 1].label) + "（"@ + dec(
            habits[n - 1].total as nat,
        ) + " 次）\n"@)
    }
}

/// The busiest hour, in a line of its own.
pub open spec fn peak_line(values: Seq<u32>) -> Seq<char> {
    let at = peak(values, 24);
    if values[at] > 0 {
        "高峰时段："@ + dec2(at as nat) + ":00（"@ + dec(values[at] as nat) + " 次）\n"@
    } else {
        Seq::empty()
    }
}

/// What is usually looked up at this hour.
pub open spec fn suggestions_text(list: Seq<HabitModel>, hour: u32) -> Seq<char> {
    if list.len() == 0 {
        "\n"@ + dec2(hour as nat) + " 点这个时段还没有形成规律。"@
    } else {
        "\n<b>"@ + dec2(hour as nat) + " 点你通常查</b>\n"@ + suggestion_lines(list, list.len())
    }
}

/// The text of the page of habits.
pub open spec fn habits_text_of(user: UserStateModel, hour: u32) -> Seq<char> {
    if user.habits.len() == 0 {
        "📊 <b>你的乘车习惯</b>\n\n还没有查询记录。查几次实时到站后，这里会显示你的常用线路和高峰时段。"@
    } else {
        let top = most_queried(user.habits, 5);
        let hours = histogram(user.habits);
        "📊 <b>你的乘车习惯</b>\n\n累计查询 "@ + dec(user.queries as nat) + " 次 · 收藏 "@ + dec(user.favorites.len()) + " 条 · 记录线路 "@ + dec(user.habits.len()) + " 条\n\n<b>常用线路</b>\n"@ + top_lines(top, top.len()) + "\n<b>查询时段分布</b>\n<code>"@ + sparkline_of(hours)
            + "</code>\n<code>0     6     12    18   23</code>\n"@ + peak_line(hours) + suggestions_text(
            suggested(user.habits, hour, 3),
            hour,
        )
    }
}

fn top_section(habits: &Vec<&Habit>) -> (r: String)
    ensures
        r@ == top_lines(habit_refs(habits@), habits@.len()),
{
    let ghost list = habit_refs(habits@);
    let n: usize = habits.len();
    let mut body = String::new();
    let mut i: usize = 0;
    while i < n
        invariant
            i <= n,
            n == habits@.len(),
            list == habit_refs(habits@),
            body@ == top_lines(list, i as nat),
        decreases n - i,
    {
        let h = habits[i];
        assert(list[i as int] == h@);
        i += 1;
        let mut line = decimal(i as u64);
        line.append(". ");
        line.append(escape(h.label.as_str()).as_str());
        line.append(" — ");
        line.append(decimal(h.total as u64).as_str());
        line.append(" 次\n");
        body.append(line.as_str());
    }
    body
}

fn suggestion_section(habits: &Vec<&Habit>, hour: u32) -> (r: String)
    ensures
        r@ == suggestions_text(habit_refs(habits@), hour),
{
    let ghost list = habit_refs(habits@);
    let n: usize = habits.len();
    if n == 0 {
        let mut t = copy("\n");
        t.append(decimal2(hour as u64).as_str());
        t.append(" 点这个时段还没有形成规律。");
        return t;
    }
    let mut body = String::new();
    let mut i: usize = 0;
    while i < n
        invariant
            i <= n,
            n == habits@.len(),
            list == habit_refs(habits@),
            body@ == suggestion_lines(list, i as nat),
        decreases n - i,
    {
        let h = habits[i];
        assert(list[i as int] == h@);
        i += 1;
        let mut line = copy("· ");
        line.append(escape(h.label.as_str()).as_str());
        line.append("（");
        line.append(decimal(h.total as u64).as_str());
        line.append(" 次）\n");
        body.append(line.as_str());
    }
    let mut t = copy("\n<b>");
    t.append(decimal2(hour as u64).as_str());
    t.append(" 点你通常查</b>\n");
    t.append(body.as_str());
    t
}

/// The hour with the most queries, the last where there are several.
pub fn peak_hour(values: &[u32; 24]) -> (r: usize)
    ensures
        r == peak(values@, 24),
        r < 24,
{
    let mut best: usize = 0;
    let mut i: usize = 1;
    while i < 24
        invariant
            1 <= i <= 24,
            best < i,
            best == peak(values@, i as nat),
        decreases 24 - i,
    {
        if values[i] >= values[best] {
            best = i;
        }
        i += 1;
    }
    best
}

/// The text of the page of habits.
pub fn habits_text(user: &UserState, hour: u32) -> (r: String)
    ensures
        r@ == habits_text_of(user@, hour),
{
    assert(user@.habits.len() == user.habits@.len());
    assert(user@.favorites.len() == user.favorites@.len());
    if user.habits.len() == 0 {
        return copy("📊 <b>你的乘车习惯</b>\n\n还没有查询记录。查几次实时到站后，这里会显示你的常用线路和高峰时段。");
    }
    let hours = user.hour_histogram();
    assert(hours@ =~= histogram(user@.habits));
    let mut t = copy("📊 <b>你的乘车习惯</b>\n\n累计查询 ");
    t.append(decimal(user.queries as u64).as_str());
    t.append(" 次 · 收藏 ");
    t.append(decimal(user.favorites.len() as u64).as_str());
    t.append(" 条 · 记录线路 ");
    t.append(decimal(user.habits.len() as u64).as_str());
    t.append(" 条\n\n<b>常用线路</b>\n");
    let top = user.top_habits(5);
    assert(habit_refs(top@).len() == top@.len());
    t.append(top_section(&top).as_str());
    t.append("\n<b>查询时段分布</b>\n<code>");
    t.append(sparkline(hours.as_slice()).as_str());
    t.append("</code>\n<code>0     6     12    18   23</code>\n");
    let at: usize = peak_hour(&hours);
    if hours[at] > 0 {
        let mut line = copy("高峰时段：");
        line.append(decimal2(at as u64).as_str());
        line.append(":00（");
        line.append(decimal(hours[at] as u64).as_str());
        line.append(" 次）\n");
        t.append(line.as_str());
    } else {
        assert(t@ + Seq::<char>::empty() == t@);
    }
    let usual = user.suggestions(hour, 3);
    t.append(suggestion_section(&usual, hour).as_str());
    t
}

/// The label of the button of a habit.
pub fn habit_button_label(habit: &Habit) -> (r: String)
    ensures
        r@ == "🕘 "@ + habit@.label,
{
    let mut r = copy("🕘 ");
    r.append(habit.label.as_str());
    r
}

// ─── what the pages say ───

/// Minutes are rounded up: they are enough for the seconds, and one less would not be.
pub proof fn law_minutes_are_rounded_up(seconds: u32)
    ensures
        60 * (minutes_up(seconds) - 1) < seconds <= 60 * minutes_up(seconds),
{
}

/// The estimate of a vehicle that is on its way to a stop of the line says how many stops, minutes and
/// metres are left, as far as each is known: the stops from where it is to the boarding stop, the seconds of
/// the source in minutes that are just enough for them, the metres of the source.
pub proof fn law_estimate_tells_stops_minutes_and_metres(
    bus: BusPositionModel,
    index: int,
    stops: Seq<LineStopModel>,
    order: u32,
    at: int,
    target: int,
    minutes: nat,
)
    requires
        0 <= at < target < stops.len(),
        stops[at].order == bus.station_index,
        stops[target].order == order,
        forall|k: int| 0 <= k < at ==> (#[trigger] stops[k]).order != bus.station_index,
        forall|k: int| 0 <= k < target ==> (#[trigger] stops[k]).order != order,
        bus.travel_time_secs is Some ==> 60 * (minutes - 1) < bus.travel_time_secs->0 <= 60 * minutes,
    ensures
        ({
            let view = described(bus, index, stops, order);
            &&& !view.passed && !view.at_target
            &&& has(view.estimate, "站序相差 "@ + dec((target - at) as nat) + " 站"@)
            &&& bus.travel_time_secs is Some && bus.travel_time_secs->0 > 0 ==> has(
                view.estimate,
                "约 "@ + dec(minutes) + " 分钟"@,
            )
            &&& bus.travel_time_secs == Some(0u32) ==> has(view.estimate, "即将到站"@)
            &&& bus.distance_shown_m is Some ==> has(
                view.estimate,
                "距目标 "@ + dec_int(bus.distance_shown_m->0 as int) + " 米"@,
            )
        }),
{
    lemma_first_where(stops, |s: LineStopModel| s.order == bus.station_index, at);
    lemma_first_where(stops, |s: LineStopModel| s.order == order, target);
    let parts = estimate_parts(bus, stops, order);
    lemma_joined_has(parts, " · "@, 0);
    assert(parts[0] == "站序相差 "@ + dec((target - at) as nat) + " 站"@);
    if bus.travel_time_secs is Some {
        let seconds = bus.travel_time_secs->0;
        assert(minutes_up(seconds) == minutes);
        lemma_joined_has(parts, " · "@, 1);
        assert(parts[1] == if seconds == 0 {
            "即将到站"@
        } else {
            "约 "@ + dec(minutes) + " 分钟"@
        });
    }
    if bus.distance_shown_m is Some {
        lemma_joined_has(parts, " · "@, parts.len() - 1);
        assert(parts[parts.len() - 1] == "距目标 "@ + dec_int(bus.distance_shown_m->0 as int) + " 米"@);
    }
}

/// Wherever a vehicle is that has neither passed nor is arriving, the estimate gives the minutes that are
/// just enough for the seconds of the source, and they are the minutes that a watch of it counts.
pub proof fn law_minutes_are_those_of_the_watch(
    buses: Seq<BusPositionModel>,
    index: int,
    stops: Seq<LineStopModel>,
    order: u32,
    target: int,
    minutes: u32,
)
    requires
        0 <= index < buses.len(),
        0 <= target < stops.len(),
        stops[target].order == order,
        !described(buses[index], index, stops, order).passed,
        !described(buses[index], index, stops, order).at_target,
        buses[index].travel_time_secs is Some,
        buses[index].travel_time_secs->0 > 0,
        60 * (minutes - 1) < buses[index].travel_time_secs->0 <= 60 * minutes,
    ensures
        has(described(buses[index], index, stops, order).estimate, "约 "@ + dec(minutes as nat) + " 分钟"@),
        approach_of(buses, index, stops, order).minutes_away == Some(minutes),
{
    let bus = buses[index];
    let parts = estimate_parts(bus, stops, order);
    let p = |s: LineStopModel| s.order == order;
    lemma_first_where_is(stops, p);
    assert(stop_index(stops, order) < stops.len()) by {
        if stop_index(stops, order) >= stops.len() {
            assert(!p(stops[target]));
        }
    }
    assert(minutes_up(bus.travel_time_secs->0) == minutes);
    let k: int = if stop_index(stops, bus.station_index) < stops.len() && stop_index(stops, order) > stop_index(
        stops,
        bus.station_index,
    ) {
        1
    } else {
        0
    };
    assert(parts[k] == "约 "@ + dec(minutes as nat) + " 分钟"@);
    lemma_joined_has(parts, " · "@, k);
}

/// Where a vehicle is, in words: the stop that it is arriving at, or the one that it has left and the one
/// that it is on its way to.
pub proof fn law_location_names_the_stops(bus: BusPositionModel, index: int, stops: Seq<LineStopModel>, order: u32, at: int)
    requires
        0 <= at < stops.len(),
        stops[at].order == bus.station_index,
        forall|k: int| 0 <= k < at ==> (#[trigger] stops[k]).order != bus.station_index,
    ensures
        ({
            let place = described(bus, index, stops, order).location;
            &&& bus.is_arriving ==> place == "正在进站："@ + stops[at].name
            &&& !bus.is_arriving ==> begins(place, "已离开："@ + stops[at].name)
            &&& !bus.is_arriving && at + 1 < stops.len() ==> has(place, "开往 "@ + stops[at + 1].name)
            &&& !bus.is_arriving && at + 1 == stops.len() ==> has(place, "末站"@)
        }),
{
    broadcast use group_has;

    lemma_first_where(stops, |s: LineStopModel| s.order == bus.station_index, at);
    let place = described(bus, index, stops, order).location;
    let left = "已离开："@ + stops[at].name;
    if !bus.is_arriving {
        assert(place.subrange(0, left.len() as int) =~= left);
        if at + 1 < stops.len() {
            reveal_strlit(" → 开往 ");
            reveal_strlit("开往 ");
            assert(" → 开往 "@ =~= seq![' ', '→', ' '] + "开往 "@);
            assert(place =~= left + seq![' ', '→', ' '] + ("开往 "@ + stops[at + 1].name));
            assert(has(left + seq![' ', '→', ' '] + ("开往 "@ + stops[at + 1].name), "开往 "@ + stops[at + 1].name));
        } else {
            reveal_strlit("（末站）");
            reveal_strlit("末站");
            assert("（末站）"@ =~= seq!['（'] + "末站"@ + seq!['）']);
            assert(has(seq!['（'] + "末站"@ + seq!['）'], "末站"@));
        }
    }
}

/// A vehicle goes by its number; one without a number by its place in the list, counted from one.
pub proof fn law_vehicle_goes_by_its_number(bus: BusPositionModel, index: int, stops: Seq<LineStopModel>, order: u32)
    requires
        index >= 0,
    ensures
        ({
            let name = described(bus, index, stops, order).identity;
            &&& !is_blank(bus.bus_id) ==> has(name, bus.bus_id)
            &&& is_blank(bus.bus_id) ==> has(name, dec((index + 1) as nat)) && has(name, "上游未提供编号"@)
        }),
{
    broadcast use group_has;

    reveal_strlit("（上游未提供编号）");
    reveal_strlit("上游未提供编号");
    assert("（上游未提供编号）"@ =~= seq!['（'] + "上游未提供编号"@ + seq!['）']);
    assert(has(seq!['（'] + "上游未提供编号"@ + seq!['）'], "上游未提供编号"@));
}

/// An arrival in words gives the stops that are left, and the minutes and metres where they are known.
pub proof fn law_arrival_tells_what_is_left(stations: u32, minutes: Option<u32>, metres: Option<u32>)
    ensures
        ({
            let text = arrival_text_of(
                ArrivalEstimate::Approaching { stations_away: stations, minutes_away: minutes, distance_m: metres },
            );
            &&& begins(text, dec(stations as nat) + " 站"@)
            &&& minutes is Some ==> has(text, "约 "@ + dec(minutes->0 as nat) + " 分钟"@)
            &&& metres is Some ==> has(text, dec(metres->0 as nat) + " 米"@)
        }),
{
    broadcast use group_has;

    let parts = arrival_parts(stations, minutes, metres);
    lemma_joined_begins(parts, " · "@);
    assert(parts[0] == dec(stations as nat) + " 站"@);
    if minutes is Some {
        lemma_joined_has(parts, " · "@, 1);
        assert(parts[1] == "约 "@ + dec(minutes->0 as nat) + " 分钟"@);
    }
    if metres is Some {
        lemma_joined_has(parts, " · "@, parts.len() - 1);
        reveal_strlit("");
        assert(""@ + dec(metres->0 as nat) + " 米"@ =~= dec(metres->0 as nat) + " 米"@);
        assert(parts[parts.len() - 1] == dec(metres->0 as nat) + " 米"@);
    }
}

/// The peak is an hour with the most queries.
pub proof fn law_peak_is_the_largest(values: Seq<u32>, n: nat, i: int)
    requires
        1 <= n <= values.len(),
        0 <= i < n,
    ensures
        0 <= peak(values, n) < n,
        values[peak(values, n)] >= values[i],
    decreases n,
{
    if n > 1 {
        if i < n - 1 {
            law_peak_is_the_largest(values, (n - 1) as nat, i);
        } else {
            law_peak_is_the_largest(values, (n - 1) as nat, 0);
        }
    }
}

/// Whether a line runs, how full a vehicle is and how a stop is served is said in the words for it; nothing is said
/// of an ordinary stop and of a vehicle of which it is not known.
pub proof fn law_states_have_their_words(level: CrowdLevel, status: StopStatus)
    ensures
        run_state_text_of(RunState::Running) == "运营中"@ && run_state_text_of(RunState::NotOperating) == "尚未运营"@
            && run_state_text_of(RunState::Stopped) == "已停运"@ && run_state_text_of(RunState::NoRealtime) == "暂无实时数据"@,
        crowd_text_of(level) is None <==> level is Unknown,
        crowd_text_of(CrowdLevel::Spacious) == Some("宽敞有座"@) && crowd_text_of(CrowdLevel::Normal) == Some("适中"@) && crowd_text_of(
            CrowdLevel::Crowded,
        ) == Some("拥挤站立"@) && crowd_text_of(CrowdLevel::Full) == Some("满载"@),
        stop_status_note_of(status) is None <==> status is Normal,
        stop_status_note_of(StopStatus::NotStopping) == Some("不停靠"@) && stop_status_note_of(StopStatus::BoardOnly) == Some("仅上客"@)
            && stop_status_note_of(StopStatus::AlightOnly) == Some("仅下客"@) && stop_status_note_of(StopStatus::Temporary) == Some(
            "临时站"@,
        ) && stop_status_note_of(StopStatus::OnDemand) == Some("招呼站"@) && stop_status_note_of(StopStatus::Express) == Some(
            "快线跳站"@,
        ),
        arrival_text_of(ArrivalEstimate::Arriving) == "即将到站"@ && arrival_text_of(ArrivalEstimate::NoService) == "暂无班次"@,
{
}

proof fn lemma_bus_lines(buses: Seq<BusPositionModel>, stops: Seq<LineStopModel>, order: u32, n: nat, i: int)
    requires
        0 <= i < n,
    ensures
        ({
            let at = by_nearness(buses, stops, order)[i] as int;
            has(all_bus_lines(buses, stops, order, n), bus_lines(buses[at], at, stops, order))
        }),
        begins(
            all_bus_lines(buses, stops, order, n),
            bus_lines(
                buses[by_nearness(buses, stops, order)[0] as int],
                by_nearness(buses, stops, order)[0] as int,
                stops,
                order,
            ),
        ),
    decreases n,
{
    broadcast use group_has;

    let at = by_nearness(buses, stops, order)[n - 1] as int;
    let before = all_bus_lines(buses, stops, order, (n - 1) as nat);
    let last = bus_lines(buses[at], at, stops, order);
    let all = all_bus_lines(buses, stops, order, n);
    assert(all == before + last);
    if n > 1 {
        lemma_bus_lines(buses, stops, order, (n - 1) as nat, if i < n - 1 { i } else { 0 });
        let first = bus_lines(
            buses[by_nearness(buses, stops, order)[0] as int],
            by_nearness(buses, stops, order)[0] as int,
            stops,
            order,
        );
        assert(all.subrange(0, first.len() as int) =~= before.subrange(0, first.len() as int));
    } else {
        assert(all =~= last);
        assert(all.subrange(0, last.len() as int) =~= last);
    }
}

proof fn lemma_bus_lines_say(bus: BusPositionModel, index: int, stops: Seq<LineStopModel>, order: u32)
    ensures
        ({
            let v = described(bus, index, stops, order);
            let text = bus_lines(bus, index, stops, order);
            &&& has(text, escaped(v.identity)) && has(text, escaped(v.location)) && has(text, escaped(v.estimate))
            &&& bus_marker(v) == if v.at_target {
                "🟢"@
            } else if v.passed {
                "⚪️"@
            } else {
                "🔵"@
            }
            &&& crowd_text_of(bus.crowd_status) is Some ==> has(text, crowd_text_of(bus.crowd_status)->0)
        }),
{
    broadcast use group_has;

}

/// The live page names the line, the boarding stop, the city and the time, says whether the line runs, and lists every
/// vehicle with where it is and when it comes, the nearest before all others.
pub proof fn law_live_page_lists_every_vehicle(
    d: LineDetailModel,
    realtime: RealTimeDataModel,
    order: u32,
    city_label: Seq<char>,
    clock: Seq<char>,
    is_favorite: bool,
    k: int,
)
    requires
        0 <= k < realtime.buses.len() <= usize::MAX,
    ensures
        ({
            let text = live_text_of(d, realtime, order, city_label, clock, is_favorite);
            let v = described(realtime.buses[k], k, d.topology.stations, order);
            &&& has(text, escaped(d.name)) && has(text, escaped(city_label)) && has(text, "更新于 "@ + clock)
            &&& has(text, run_state_text_of(realtime.run_state))
            &&& has(text, escaped(v.identity)) && has(text, escaped(v.location)) && has(text, escaped(v.estimate))
        }),
        ({
            let first = by_nearness(realtime.buses, d.topology.stations, order)[0] as int;
            has(
                live_text_of(d, realtime, order, city_label, clock, is_favorite),
                "）</b>\n"@ + bus_lines(realtime.buses[first], first, d.topology.stations, order),
            )
        }),
{
    let buses = realtime.buses;
    let stops = d.topology.stations;
    let shown = by_nearness(buses, stops, order);
    crate::watch::law_vehicles_are_listed_by_stops_left(buses, stops, order);
    assert(shown.contains(k as usize));
    let i = choose|i: int| 0 <= i < shown.len() && shown[i] == k as usize;
    lemma_bus_lines(buses, stops, order, buses.len(), i);
    lemma_bus_lines_say(buses[k], k, stops, order);
    let text = live_text_of(d, realtime, order, city_label, clock, is_favorite);
    let lines = bus_lines(buses[k], k, stops, order);
    let v = described(buses[k], k, stops, order);
    lemma_live_parts(d, realtime, order, city_label, clock, is_favorite);
    lemma_has_through(text, all_bus_lines(buses, stops, order, buses.len()), lines);
    let first = bus_lines(buses[shown[0] as int], shown[0] as int, stops, order);
    let listed = all_bus_lines(buses, stops, order, buses.len());
    let front = "<b>在途车辆（"@ + dec(buses.len());
    let head = "）</b>\n"@ + first;
    assert(buses_text(buses, stops, order) =~= front + head + listed.skip(first.len() as int)) by {
        assert(listed =~= listed.subrange(0, first.len() as int) + listed.skip(first.len() as int));
    }
    lemma_has_itself(head);
    lemma_has_behind(front, head, head);
    lemma_has_before(front + head, listed.skip(first.len() as int), head);
    lemma_has_through(text, buses_text(buses, stops, order), head);
    lemma_has_through(text, lines, escaped(v.identity));
    lemma_has_through(text, lines, escaped(v.location));
    lemma_has_through(text, lines, escaped(v.estimate));
}

proof fn lemma_live_parts(
    d: LineDetailModel,
    realtime: RealTimeDataModel,
    order: u32,
    city_label: Seq<char>,
    clock: Seq<char>,
    is_favorite: bool,
)
    ensures
        ({
            let text = live_text_of(d, realtime, order, city_label, clock, is_favorite);
            &&& has(text, escaped(d.name)) && has(text, escaped(city_label)) && has(text, "更新于 "@ + clock)
            &&& has(text, run_state_text_of(realtime.run_state))
            &&& has(text, escaped(boarding_name(d.topology.stations, order)))
            &&& has(text, dec(order as nat))
            &&& realtime.buses.len() > 0 ==> has(
                text,
                all_bus_lines(realtime.buses, d.topology.stations, order, realtime.buses.len()),
            )
            &&& has(text, buses_text(realtime.buses, d.topology.stations, order))
            &&& realtime.arrival_estimates.len() > 0 ==> has(text, estimate_lines(realtime.arrival_estimates))
            &&& is_favorite ==> has(text, " ⭐"@)
        }),
{
    let none = if realtime.buses.len() == 0 && realtime.arrival_estimates.len() == 0 {
        "当前没有车辆到站预估。\n"@
    } else {
        ""@
    };
    let star = if is_favorite { " ⭐"@ } else { ""@ };
    let buses = buses_text(realtime.buses, d.topology.stations, order);
    let estimates = estimates_text(realtime.arrival_estimates);
    lemma_live_text(
        "🚌 <b>"@,
        escaped(d.name),
        "</b>"@,
        star,
        "\n上车站：<b>"@,
        escaped(boarding_name(d.topology.stations, order)),
        "</b>（第 "@,
        dec(order as nat),
        " 站）\n状态："@,
        run_state_text_of(realtime.run_state),
        " · <i>"@,
        escaped(city_label),
        "</i>\n"@,
        boarding_note(d.topology.stations, order),
        note_line("计划发车："@, realtime.plan_time, "\n"@),
        "\n"@,
        none,
        buses,
        estimates,
        "\n更新于 "@,
        clock,
    );
    let text = live_text_of(d, realtime, order, city_label, clock, is_favorite);
    reveal_strlit("\n更新于 ");
    reveal_strlit("更新于 ");
    assert("\n更新于 "@ + clock =~= seq!['\n'] + ("更新于 "@ + clock));
    lemma_has_itself("更新于 "@ + clock);
    lemma_has_behind(seq!['\n'], "更新于 "@ + clock, "更新于 "@ + clock);
    lemma_has_through(text, "\n更新于 "@ + clock, "更新于 "@ + clock);
    if realtime.buses.len() > 0 {
        let lines = all_bus_lines(realtime.buses, d.topology.stations, order, realtime.buses.len());
        lemma_has_itself(lines);
        lemma_has_behind("<b>在途车辆（"@ + dec(realtime.buses.len()) + "）</b>\n"@, lines, lines);
        lemma_has_through(text, buses, lines);
    }
    if realtime.arrival_estimates.len() > 0 {
        let lines = estimate_lines(realtime.arrival_estimates);
        lemma_has_itself(lines);
        lemma_has_behind("\n<b>综合到站预估</b>（上游未关联车辆编号，单独列出）\n"@, lines, lines);
        lemma_has_through(text, estimates, lines);
    }
}

proof fn lemma_live_text(
    a0: Seq<char>,
    name: Seq<char>,
    a1: Seq<char>,
    star: Seq<char>,
    a2: Seq<char>,
    stop: Seq<char>,
    a3: Seq<char>,
    order: Seq<char>,
    a4: Seq<char>,
    state: Seq<char>,
    a5: Seq<char>,
    city: Seq<char>,
    a6: Seq<char>,
    note: Seq<char>,
    plan: Seq<char>,
    a7: Seq<char>,
    none: Seq<char>,
    buses: Seq<char>,
    estimates: Seq<char>,
    a8: Seq<char>,
    clock: Seq<char>,
)
    ensures
        ({
            let text = a0 + name + a1 + star + a2 + stop + a3 + order + a4 + state + a5 + city + a6 + note + plan + a7 + none + buses
                + estimates + a8 + clock;
            &&& has(text, name) && has(text, star) && has(text, stop) && has(text, order) && has(text, state) && has(text, city)
            &&& has(text, buses) && has(text, estimates) && has(text, a8 + clock)
        }),
{
    broadcast use group_has;

    let front = a0 + name + a1 + star + a2 + stop + a3 + order + a4 + state + a5 + city + a6 + note + plan + a7 + none + buses
        + estimates;
    assert(front + a8 + clock =~= front + (a8 + clock));
    assert(has(front + (a8 + clock), a8 + clock));
}

proof fn lemma_estimate_line(list: Seq<ArrivalDetail>, i: int)
    requires
        0 <= i < list.len(),
    ensures
        has(estimate_lines(list), estimate_line(list[i])),
    decreases list.len(),
{
    broadcast use group_has;

    if i < list.len() - 1 {
        lemma_estimate_line(list.drop_last(), i);
        assert(list.drop_last()[i] == list[i]);
    }
    assert(has(estimate_lines(list.drop_last()) + estimate_line(list.last()), estimate_line(list[i])));
}

proof fn lemma_estimate_told(e: ArrivalDetail)
    ensures
        has(
            estimate_line(e),
            dec(e.stations_away as nat) + " 站 · 约 "@ + dec(e.minutes_away as nat) + " 分钟 · "@ + dec(e.distance_m as nat) + " 米"@,
        ),
{
    reveal_strlit(" 米\n");
    reveal_strlit(" 米");
    reveal_strlit("\n");
    assert(" 米\n"@ =~= " 米"@ + "\n"@);
    lemma_estimate_parts(
        "· "@,
        dec(e.stations_away as nat),
        " 站 · 约 "@,
        dec(e.minutes_away as nat),
        " 分钟 · "@,
        dec(e.distance_m as nat),
        " 米"@,
        "\n"@,
    );
}

proof fn lemma_estimate_parts(
    a: Seq<char>,
    n1: Seq<char>,
    b: Seq<char>,
    n2: Seq<char>,
    c: Seq<char>,
    n3: Seq<char>,
    d: Seq<char>,
    e: Seq<char>,
)
    ensures
        has(a + n1 + b + n2 + c + n3 + (d + e), n1 + b + n2 + c + n3 + d),
{
    let text = a + n1 + b + n2 + c + n3 + (d + e);
    let told = n1 + b + n2 + c + n3 + d;
    let i = a.len() as int;
    assert(text.subrange(i, i + told.len()) =~= told);
    assert(occurs_at(text, told, i));
}

/// The live page gives every estimate that is tied to no vehicle: its stops, its minutes and its metres.
pub proof fn law_live_page_lists_every_estimate(
    d: LineDetailModel,
    realtime: RealTimeDataModel,
    order: u32,
    city_label: Seq<char>,
    clock: Seq<char>,
    is_favorite: bool,
    k: int,
)
    requires
        0 <= k < realtime.arrival_estimates.len(),
    ensures
        ({
            let e = realtime.arrival_estimates[k];
            has(
                live_text_of(d, realtime, order, city_label, clock, is_favorite),
                dec(e.stations_away as nat) + " 站 · 约 "@ + dec(e.minutes_away as nat) + " 分钟 · "@ + dec(e.distance_m as nat) + " 米"@,
            )
        }),
{
    let e = realtime.arrival_estimates[k];
    let text = live_text_of(d, realtime, order, city_label, clock, is_favorite);
    let told = dec(e.stations_away as nat) + " 站 · 约 "@ + dec(e.minutes_away as nat) + " 分钟 · "@ + dec(e.distance_m as nat)
        + " 米"@;
    lemma_live_parts(d, realtime, order, city_label, clock, is_favorite);
    lemma_estimate_line(realtime.arrival_estimates, k);
    lemma_estimate_told(e);
    lemma_has_through(text, estimate_lines(realtime.arrival_estimates), estimate_line(e));
    lemma_has_through(text, estimate_line(e), told);
}

proof fn lemma_card_text(
    a0: Seq<char>,
    line: Seq<char>,
    a1: Seq<char>,
    stop: Seq<char>,
    a2: Seq<char>,
    order: Seq<char>,
    a3: Seq<char>,
    target: Seq<char>,
    a4: Seq<char>,
    state: Seq<char>,
    a5: Seq<char>,
    city: Seq<char>,
    a6: Seq<char>,
    vehicle: Seq<char>,
    rules: Seq<char>,
)
    ensures
        ({
            let text = a0 + line + a1 + stop + a2 + order + a3 + target + a4 + state + a5 + city + a6 + vehicle + rules;
            &&& has(text, line) && has(text, stop) && has(text, order) && has(text, target) && has(text, state) && has(text, city)
            &&& has(text, vehicle) && has(text, rules)
        }),
{
    broadcast use group_has;

}

/// The card of a watch names the line, the boarding stop and the vehicle that is waited for, says whether the line runs,
/// where the vehicle is and how far off, and by which settings there are alerts.
pub proof fn law_card_shows_the_watch(
    w: WatchSpecModel,
    approach: Option<ApproachModel>,
    alerts: AlertSettings,
    run_state: RunState,
    clock: Seq<char>,
)
    ensures
        ({
            let text = watch_card_of(w, approach, alerts, run_state, clock);
            &&& has(text, escaped(w.line_name)) && has(text, escaped(w.station_name)) && has(text, dec(w.order as nat))
            &&& has(text, run_state_text_of(run_state))
            &&& w.target_bus is Some ==> has(text, "车辆 "@ + escaped(w.target_bus->0))
            &&& w.target_bus is None ==> has(text, "最近的一班"@)
            &&& approach matches Some(a) ==> {
                &&& has(text, escaped(a.label))
                &&& a.location is Some ==> has(text, escaped(a.location->0))
                &&& a.stations_away is Some ==> has(text, "还有 "@ + dec(a.stations_away->0 as nat) + " 站"@)
                &&& a.minutes_away is Some ==> has(text, "约 "@ + dec(a.minutes_away->0 as nat) + " 分钟"@)
                &&& a.distance_m is Some ==> has(text, dec(a.distance_m->0 as nat) + " 米"@)
                &&& a.anonymous ==> has(text, "   （该预估未关联车辆编号，仅供参考）\n"@)
            }
            &&& has(text, "还有 "@ + dec(alerts.alert_stations as nat) + " 站时提醒一次"@)
            &&& has(text, dec(alerts.alert_distance_m as nat) + " 米内每 "@ + dec(alerts.repeat_secs as nat) + " 秒重复提醒"@)
            &&& has(text, "每 "@ + dec(alerts.poll_secs as nat) + " 秒刷新"@)
        }),
{
    let text = watch_card_of(w, approach, alerts, run_state, clock);
    lemma_card_text(
        "🔔 <b>盯车中</b> · "@,
        escaped(w.line_name),
        "\n上车站：<b>"@,
        escaped(w.station_name),
        "</b>（第 "@,
        dec(w.order as nat),
        " 站）\n等待："@,
        target_of(w.target_bus),
        "\n状态："@,
        run_state_text_of(run_state),
        " · <i>"@,
        escaped(w.city_label),
        "</i>\n\n"@,
        approach_lines(approach),
        rules_text(alerts, clock),
    );
    lemma_rules(alerts, clock);
    let rules = rules_text(alerts, clock);
    lemma_has_through(text, rules, "还有 "@ + dec(alerts.alert_stations as nat) + " 站时提醒一次"@);
    lemma_has_through(
        text,
        rules,
        dec(alerts.alert_distance_m as nat) + " 米内每 "@ + dec(alerts.repeat_secs as nat) + " 秒重复提醒"@,
    );
    lemma_has_through(text, rules, "每 "@ + dec(alerts.poll_secs as nat) + " 秒刷新"@);
    if approach is Some {
        let a = approach->0;
        let lines = approach_lines(approach);
        lemma_approach_lines(a);
        lemma_has_through(text, lines, escaped(a.label));
        if a.location is Some {
            lemma_has_through(text, lines, escaped(a.location->0));
        }
        if a.stations_away is Some {
            lemma_has_through(text, lines, "还有 "@ + dec(a.stations_away->0 as nat) + " 站"@);
        }
        if a.minutes_away is Some {
            lemma_has_through(text, lines, "约 "@ + dec(a.minutes_away->0 as nat) + " 分钟"@);
        }
        if a.distance_m is Some {
            lemma_has_through(text, lines, dec(a.distance_m->0 as nat) + " 米"@);
        }
        if a.anonymous {
            lemma_has_through(text, lines, "   （该预估未关联车辆编号，仅供参考）\n"@);
        }
    }
}

proof fn lemma_rules_text(
    a: Seq<char>,
    b: Seq<char>,
    n1: Seq<char>,
    c: Seq<char>,
    d: Seq<char>,
    n2: Seq<char>,
    e: Seq<char>,
    n3: Seq<char>,
    f: Seq<char>,
    g: Seq<char>,
    h: Seq<char>,
    n4: Seq<char>,
    i: Seq<char>,
    j: Seq<char>,
    clock: Seq<char>,
)
    ensures
        ({
            let text = (a + b) + n1 + (c + d) + n2 + e + n3 + (f + g + h) + n4 + (i + j) + clock;
            has(text, b + n1 + c) && has(text, n2 + e + n3 + f) && has(text, h + n4 + i)
        }),
{
    let text = (a + b) + n1 + (c + d) + n2 + e + n3 + (f + g + h) + n4 + (i + j) + clock;
    let first = b + n1 + c;
    let second = n2 + e + n3 + f;
    let third = h + n4 + i;
    let x = a.len() as int;
    assert(text.subrange(x, x + first.len()) =~= first);
    assert(occurs_at(text, first, x));
    let y = x + first.len() + d.len();
    assert(text.subrange(y, y + second.len()) =~= second);
    assert(occurs_at(text, second, y));
    let z = y + second.len() + g.len();
    assert(text.subrange(z, z + third.len()) =~= third);
    assert(occurs_at(text, third, z));
}

proof fn lemma_rules(alerts: AlertSettings, clock: Seq<char>)
    ensures
        ({
            let text = rules_text(alerts, clock);
            &&& has(text, "还有 "@ + dec(alerts.alert_stations as nat) + " 站时提醒一次"@)
            &&& has(text, dec(alerts.alert_distance_m as nat) + " 米内每 "@ + dec(alerts.repeat_secs as nat) + " 秒重复提醒"@)
            &&& has(text, "每 "@ + dec(alerts.poll_secs as nat) + " 秒刷新"@)
        }),
{
    reveal_strlit("\n提醒规则：还有 ");
    reveal_strlit("\n提醒规则：");
    reveal_strlit("还有 ");
    reveal_strlit(" 站时提醒一次；");
    reveal_strlit(" 站时提醒一次");
    reveal_strlit("；");
    reveal_strlit(" 秒重复提醒\n每 ");
    reveal_strlit(" 秒重复提醒");
    reveal_strlit("\n");
    reveal_strlit("每 ");
    reveal_strlit(" 秒刷新 · 更新于 ");
    reveal_strlit(" 秒刷新");
    reveal_strlit(" · 更新于 ");
    assert("\n提醒规则：还有 "@ =~= "\n提醒规则："@ + "还有 "@);
    assert(" 站时提醒一次；"@ =~= " 站时提醒一次"@ + "；"@);
    assert(" 秒重复提醒\n每 "@ =~= " 秒重复提醒"@ + "\n"@ + "每 "@);
    assert(" 秒刷新 · 更新于 "@ =~= " 秒刷新"@ + " · 更新于 "@);
    lemma_rules_text(
        "\n提醒规则："@,
        "还有 "@,
        dec(alerts.alert_stations as nat),
        " 站时提醒一次"@,
        "；"@,
        dec(alerts.alert_distance_m as nat),
        " 米内每 "@,
        dec(alerts.repeat_secs as nat),
        " 秒重复提醒"@,
        "\n"@,
        "每 "@,
        dec(alerts.poll_secs as nat),
        " 秒刷新"@,
        " · 更新于 "@,
        clock,
    );
}

proof fn lemma_approach_lines(a: ApproachModel)
    ensures
        ({
            let text = approach_lines(Some(a));
            &&& has(text, escaped(a.label))
            &&& a.location is Some ==> has(text, escaped(a.location->0))
            &&& a.stations_away is Some ==> has(text, "还有 "@ + dec(a.stations_away->0 as nat) + " 站"@)
            &&& a.minutes_away is Some ==> has(text, "约 "@ + dec(a.minutes_away->0 as nat) + " 分钟"@)
            &&& a.distance_m is Some ==> has(text, dec(a.distance_m->0 as nat) + " 米"@)
            &&& a.anonymous ==> has(text, "   （该预估未关联车辆编号，仅供参考）\n"@)
        }),
{
    broadcast use group_has;

    let text = approach_lines(Some(a));
    let parts = approach_parts(a, ""@);
    let list = joined(parts, " · "@);
    let first: int = if a.stations_away is Some { 1 } else { 0 };
    if parts.len() > 0 {
        assert(has("   "@ + list + "\n"@, list));
        assert(has(text, "   "@ + list + "\n"@));
        lemma_has_through(text, "   "@ + list + "\n"@, list);
    }
    if a.stations_away is Some {
        lemma_joined_has(parts, " · "@, 0);
        assert(parts[0] == "还有 "@ + dec(a.stations_away->0 as nat) + " 站"@);
        lemma_has_through(text, list, parts[0]);
    }
    if a.minutes_away is Some {
        lemma_joined_has(parts, " · "@, first);
        assert(parts[first] == "约 "@ + dec(a.minutes_away->0 as nat) + " 分钟"@);
        lemma_has_through(text, list, parts[first]);
    }
    if a.distance_m is Some {
        lemma_joined_has(parts, " · "@, parts.len() - 1);
        reveal_strlit("");
        assert(""@ + dec(a.distance_m->0 as nat) + " 米"@ =~= dec(a.distance_m->0 as nat) + " 米"@);
        assert(parts[parts.len() - 1] == dec(a.distance_m->0 as nat) + " 米"@);
        lemma_has_through(text, list, parts[parts.len() - 1]);
    }
}

/// The bars grow with the queries: an hour without any has none, more queries never have a shorter bar, and the most
/// have the longest.
pub proof fn law_bars_grow_with_the_queries(values: Seq<u32>, i: int, j: int)
    requires
        0 <= i < values.len(),
        0 <= j < values.len(),
        largest(values) > 0,
    ensures
        sparkline_of(values).len() == values.len(),
        values[i] == 0 <==> sparkline_of(values)[i] == '·',
        0 < values[i] <= values[j] ==> bar_level(values[i], largest(values)) <= bar_level(values[j], largest(values)) <= 7,
        values[i] == largest(values) ==> sparkline_of(values)[i] == '█',
        values[i] > 0 ==> sparkline_of(values)[i] == block(bar_level(values[i], largest(values))),
{
    lemma_largest(values, i);
    lemma_largest(values, j);
    law_bars_fit(values[i], largest(values));
    law_bars_fit(values[j], largest(values));
    let (v, w, m) = (values[i] as int, values[j] as int, largest(values) as int);
    if v <= w {
        assert((14 * v + m) / (2 * m) <= (14 * w + m) / (2 * m)) by (nonlinear_arith)
            requires
                0 <= v <= w,
                m > 0,
        ;
    }
}

proof fn lemma_largest(values: Seq<u32>, i: int)
    requires
        0 <= i < values.len(),
    ensures
        values[i] <= largest(values),
    decreases values.len(),
{
    if i < values.len() - 1 {
        lemma_largest(values.drop_last(), i);
    }
}

/// The page of a line gives its name, its ends, its first and last vehicle, its fare and the number of its stops.
pub proof fn law_line_page_describes_the_line(d: LineDetailModel, city_label: Seq<char>)
    ensures
        ({
            let text = line_detail_text_of(d, city_label);
            &&& has(text, escaped(d.name)) && has(text, escaped(city_label))
            &&& d.topology.start matches TerminalModel::Named(name) ==> has(text, escaped(name))
            &&& d.topology.end matches TerminalModel::Named(name) ==> has(text, escaped(name))
            &&& d.meta.first_service is Some ==> has(text, "首班 "@ + d.meta.first_service->0.text)
            &&& d.meta.last_service is Some ==> has(text, "末班 "@ + d.meta.last_service->0.text)
            &&& d.meta.fare matches FareModel::Text(fare) ==> has(text, escaped(fare))
            &&& has(text, "共 "@ + dec(d.topology.stations.len()) + " 站"@)
        }),
{
    reveal_strlit("</i>\n\n首班 ");
    reveal_strlit("</i>\n\n");
    reveal_strlit("首班 ");
    reveal_strlit(" · 末班 ");
    reveal_strlit(" · ");
    reveal_strlit("末班 ");
    reveal_strlit("\n共 ");
    reveal_strlit("\n");
    reveal_strlit("共 ");
    assert("</i>\n\n首班 "@ =~= "</i>\n\n"@ + "首班 "@);
    assert(" · 末班 "@ =~= " · "@ + "末班 "@);
    assert("\n共 "@ =~= "\n"@ + "共 "@);
    lemma_line_text(
        "🚌 <b>"@,
        escaped(d.name),
        "</b>\n"@,
        escaped(terminal_or(d.topology.start, "起点待更新"@)),
        " → "@,
        escaped(terminal_or(d.topology.end, "终点待更新"@)),
        "\n<i>"@,
        escaped(city_label),
        "</i>\n\n"@,
        "首班 "@,
        service_or_dash(d.meta.first_service),
        " · "@,
        "末班 "@,
        service_or_dash(d.meta.last_service),
        " · 票价 "@,
        escaped(fare_or_unknown(d.meta.fare)),
        "\n"@,
        "共 "@,
        dec(d.topology.stations.len()),
        " 站"@,
        note_line("\n运营单位："@, d.meta.company, ""@),
        note_line("\n提示："@, d.meta.notes, ""@),
        "\n\n选择你的上车站，查看实时到站："@,
    );
}

proof fn lemma_line_text(
    a0: Seq<char>,
    name: Seq<char>,
    a1: Seq<char>,
    start: Seq<char>,
    a2: Seq<char>,
    end: Seq<char>,
    a3: Seq<char>,
    city: Seq<char>,
    a4: Seq<char>,
    b4: Seq<char>,
    first: Seq<char>,
    a5: Seq<char>,
    b5: Seq<char>,
    last: Seq<char>,
    a6: Seq<char>,
    fare: Seq<char>,
    a7: Seq<char>,
    b7: Seq<char>,
    count: Seq<char>,
    a8: Seq<char>,
    company: Seq<char>,
    notes: Seq<char>,
    a9: Seq<char>,
)
    ensures
        ({
            let text = a0 + name + a1 + start + a2 + end + a3 + city + (a4 + b4) + first + (a5 + b5) + last + a6 + fare + (a7 + b7)
                + count + a8 + company + notes + a9;
            &&& has(text, name) && has(text, start) && has(text, end) && has(text, city) && has(text, fare)
            &&& has(text, b4 + first) && has(text, b5 + last) && has(text, b7 + count + a8)
        }),
{
    broadcast use group_has;

    let text = a0 + name + a1 + start + a2 + end + a3 + city + (a4 + b4) + first + (a5 + b5) + last + a6 + fare + (a7 + b7) + count
        + a8 + company + notes + a9;
    let x = (a0 + name + a1 + start + a2 + end + a3 + city + a4).len() as int;
    assert(text.subrange(x, x + (b4 + first).len()) =~= b4 + first);
    assert(occurs_at(text, b4 + first, x));
    let y = x + (b4 + first + a5).len();
    assert(text.subrange(y, y + (b5 + last).len()) =~= b5 + last);
    assert(occurs_at(text, b5 + last, y));
    let z = y + (b5 + last + a6 + fare + a7).len();
    assert(text.subrange(z, z + (b7 + count + a8).len()) =~= b7 + count + a8);
    assert(occurs_at(text, b7 + count + a8, z));
}

proof fn lemma_top_line(habits: Seq<HabitModel>, n: nat, i: int)
    requires
        0 <= i < n,
    ensures
        has(
            top_lines(habits, n),
            dec((i + 1) as nat) + ". "@ + escaped(habits[i].label) + " — "@ + dec(habits[i].total as nat) + " 次\n"@,
        ),
    decreases n,
{
    broadcast use group_has;

    let line = dec((i + 1) as nat) + ". "@ + escaped(habits[i].label) + " — "@ + dec(habits[i].total as nat) + " 次\n"@;
    let last = dec(n) + ". "@ + escaped(habits[n - 1].label) + " — "@ + dec(habits[n - 1].total as nat) + " 次\n"@;
    if i < n - 1 {
        lemma_top_line(habits, (n - 1) as nat, i);
    }
    assert(has(top_lines(habits, (n - 1) as nat) + last, line));
}

proof fn lemma_suggestion_line(habits: Seq<HabitModel>, n: nat, i: int)
    requires
        0 <= i < n,
    ensures
        has(suggestion_lines(habits, n), "· "@ + escaped(habits[i].label) + "（"@ + dec(habits[i].total as nat) + " 次）\n"@),
    decreases n,
{
    broadcast use group_has;

    let line = "· "@ + escaped(habits[i].label) + "（"@ + dec(habits[i].total as nat) + " 次）\n"@;
    let last = "· "@ + escaped(habits[n - 1].label) + "（"@ + dec(habits[n - 1].total as nat) + " 次）\n"@;
    if i < n - 1 {
        lemma_suggestion_line(habits, (n - 1) as nat, i);
    }
    assert(has(suggestion_lines(habits, (n - 1) as nat) + last, line));
}

proof fn lemma_habits_text(
    a0: Seq<char>,
    queries: Seq<char>,
    a1: Seq<char>,
    kept: Seq<char>,
    a2: Seq<char>,
    count: Seq<char>,
    a3: Seq<char>,
    top: Seq<char>,
    a4: Seq<char>,
    bars: Seq<char>,
    a5: Seq<char>,
    peak: Seq<char>,
    suggestions: Seq<char>,
)
    ensures
        ({
            let text = a0 + queries + a1 + kept + a2 + count + a3 + top + a4 + bars + a5 + peak + suggestions;
            &&& has(text, queries) && has(text, kept) && has(text, count) && has(text, top) && has(text, bars) && has(text, peak) && has(
                text,
                suggestions,
            )
        }),
{
    broadcast use group_has;

}

/// The page of habits lists the five lines that are looked up most, numbered, with how often; it shows the queries by
/// the hour and the peak among them, and what is looked up most around the present hour.
pub proof fn law_habits_page_shows_the_habits(user: UserStateModel, hour: u32, i: int, j: int)
    requires
        user.habits.len() > 0,
    ensures
        ({
            let text = habits_text_of(user, hour);
            let top = most_queried(user.habits, 5);
            let now = suggested(user.habits, hour, 3);
            let hours = Seq::new(24, |h: int| capped(hour_sum(user.habits, h)));
            let at = peak(hours, 24);
            &&& has(text, dec(user.queries as nat)) && has(text, dec(user.favorites.len())) && has(text, dec(user.habits.len()))
            &&& 0 <= i < top.len() ==> has(
                text,
                dec((i + 1) as nat) + ". "@ + escaped(top[i].label) + " — "@ + dec(top[i].total as nat) + " 次\n"@,
            )
            &&& has(text, sparkline_of(hours))
            &&& hours[at] > 0 ==> has(text, "高峰时段："@ + dec2(at as nat) + ":00（"@ + dec(hours[at] as nat) + " 次）\n"@)
            &&& 0 <= j < now.len() ==> has(
                text,
                "· "@ + escaped(now[j].label) + "（"@ + dec(now[j].total as nat) + " 次）\n"@,
            )
        }),
{
    let text = habits_text_of(user, hour);
    let top = most_queried(user.habits, 5);
    let now = suggested(user.habits, hour, 3);
    let hours = histogram(user.habits);
    lemma_habits_text(
        "📊 <b>你的乘车习惯</b>\n\n累计查询 "@,
        dec(user.queries as nat),
        " 次 · 收藏 "@,
        dec(user.favorites.len()),
        " 条 · 记录线路 "@,
        dec(user.habits.len()),
        " 条\n\n<b>常用线路</b>\n"@,
        top_lines(top, top.len()),
        "\n<b>查询时段分布</b>\n<code>"@,
        sparkline_of(hours),
        "</code>\n<code>0     6     12    18   23</code>\n"@,
        peak_line(hours),
        suggestions_text(now, hour),
    );
    if 0 <= i < top.len() {
        lemma_top_line(top, top.len(), i);
        lemma_has_through(
            text,
            top_lines(top, top.len()),
            dec((i + 1) as nat) + ". "@ + escaped(top[i].label) + " — "@ + dec(top[i].total as nat) + " 次\n"@,
        );
    }
    if 0 <= j < now.len() {
        let line = "· "@ + escaped(now[j].label) + "（"@ + dec(now[j].total as nat) + " 次）\n"@;
        let lines = suggestion_lines(now, now.len());
        lemma_suggestion_line(now, now.len(), j);
        lemma_has_itself(lines);
        lemma_has_behind("\n<b>"@ + dec2(hour as nat) + " 点你通常查</b>\n"@, lines, lines);
        lemma_has_through(text, suggestions_text(now, hour), lines);
        lemma_has_through(text, lines, line);
    }
}

/// A vehicle that has passed the boarding stop and one that is arriving there are said to; neither is given a time.
pub proof fn law_arriving_and_passed_are_said(bus: BusPositionModel, index: int, stops: Seq<LineStopModel>, order: u32)
    ensures
        ({
            let view = described(bus, index, stops, order);
            let (_, passed, at_target) = progress_of(bus.station_index, bus.is_arriving, stops, order);
            &&& view.passed == passed && view.at_target == at_target
            &&& passed ==> view.estimate == "已驶过你的上车站"@
            &&& at_target ==> view.estimate == "正在进入你的上车站"@
            &&& bus.travel_time_secs is None && bus.distance_shown_m is None && !passed && !at_target && stop_index(
                stops,
                bus.station_index,
            ) >= stops.len() ==> view.estimate == "暂无该车到站预估"@
        }),
{
}

} // verus!
