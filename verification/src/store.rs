//! What is kept of each user: the chosen city, favourites, habits and alert settings.
//!
//! A [`Store`] holds all users and the global defaults in memory. Whoever owns it writes a snapshot
//! to disk when [`Store::begin_flush`] says that something has changed.
use crate::models::GeoPoint;
use crate::seqs::{first_where, lemma_filter_has, lemma_filter_next, lemma_first_where, lemma_first_where_is};
use crate::sort::{arranged, key_views, lemma_arranged, lemma_lex_two, order_of, stable_order};
use crate::text::{copy, dec, dec2, decimal, decimal2, opt_view, same};
use std::collections::HashMap;
use vstd::prelude::*;
use vstd::std_specs::iter::IteratorSpec;

verus! {

// ─── time ───

/// The seconds since the beginning of 1970 by `std::time::SystemTime::now`, 0 for a clock before it.
/// Nothing is promised of the result: it is whatever the clock of the machine says.
#[verifier::external_body]
pub fn now_secs() -> u64 {
    std::time::SystemTime::now().duration_since(std::time::UNIX_EPOCH).map(|d| d.as_secs()).unwrap_or(0)
}

/// The signed number with the bits of `u`.
pub open spec fn signed(u: u64) -> int {
    if u < 0x8000_0000_0000_0000 {
        u as int
    } else {
        u - 0x1_0000_0000_0000_0000
    }
}

/// `unix_secs` in the time zone `tz` hours ahead of UTC can be reckoned in 64 bits.
pub open spec fn clock_fits(unix_secs: u64, tz: i64) -> bool {
    &&& i64::MIN <= tz * 3600 <= i64::MAX
    &&& i64::MIN <= signed(unix_secs) + tz * 3600 <= i64::MAX
}

/// The second of the day, in the time zone `tz` hours ahead of UTC.
pub open spec fn day_second(unix_secs: u64, tz: i64) -> nat {
    ((signed(unix_secs) + tz * 3600) % 86_400) as nat
}

/// The hour of the day.
pub open spec fn hour_at(unix_secs: u64, tz: i64) -> nat {
    day_second(unix_secs, tz) / 3600
}

/// The time of day as hours and minutes.
pub open spec fn clock_at(unix_secs: u64, tz: i64) -> Seq<char> {
    let s = day_second(unix_secs, tz);
    dec2(s / 3600) + ":"@ + dec2((s % 3600) / 60)
}

/// The time of day as hours, minutes and seconds.
pub open spec fn clock_secs_at(unix_secs: u64, tz: i64) -> Seq<char> {
    clock_at(unix_secs, tz) + ":"@ + dec2(day_second(unix_secs, tz) % 60)
}

/// The signed number with the bits of `u`.
pub fn as_signed(u: u64) -> (r: i64)
    ensures
        r == signed(u),
{
    let r: i64 = #[verifier::truncate]
    (u as i64);
    assert(u < 0x8000_0000_0000_0000 ==> r == u) by (bit_vector)
        requires
            r == u as i64,
    ;
    assert(u >= 0x8000_0000_0000_0000 ==> r == u - 0x1_0000_0000_0000_0000) by (bit_vector)
        requires
            r == u as i64,
    ;
    r
}

fn second_of_day(unix_secs: u64, tz_offset_hours: i64) -> (r: u64)
    requires
        clock_fits(unix_secs, tz_offset_hours),
    ensures
        r == day_second(unix_secs, tz_offset_hours),
        r < 86_400,
{
    let shifted: i64 = as_signed(unix_secs) + tz_offset_hours * 3600;
    match shifted.checked_rem_euclid(86_400) {
        Some(second) => second as u64,
        None => 0,
    }
}

/// The local hour (0 to 23) at a fixed offset from UTC.
pub fn local_hour(unix_secs: u64, tz_offset_hours: i64) -> (r: u32)
    requires
        clock_fits(unix_secs, tz_offset_hours),
    ensures
        r == hour_at(unix_secs, tz_offset_hours),
        r < 24,
{
    (second_of_day(unix_secs, tz_offset_hours) / 3600) as u32
}

/// The local time as `HH:MM`.
pub fn local_clock(unix_secs: u64, tz_offset_hours: i64) -> (r: String)
    requires
        clock_fits(unix_secs, tz_offset_hours),
    ensures
        r@ == clock_at(unix_secs, tz_offset_hours),
{
    let second: u64 = second_of_day(unix_secs, tz_offset_hours);
    let mut r = decimal2(second / 3600);
    r.append(":");
    r.append(decimal2((second % 3600) / 60).as_str());
    r
}

/// The local time as `HH:MM:SS`.
pub fn local_clock_secs(unix_secs: u64, tz_offset_hours: i64) -> (r: String)
    requires
        clock_fits(unix_secs, tz_offset_hours),
    ensures
        r@ == clock_secs_at(unix_secs, tz_offset_hours),
{
    let second: u64 = second_of_day(unix_secs, tz_offset_hours);
    let mut r = local_clock(unix_secs, tz_offset_hours);
    r.append(":");
    r.append(decimal2(second % 60).as_str());
    r
}

// ─── alert settings ───

/// The parameters of the alerts of a watch.
#[derive(Debug, Clone, Copy, PartialEq, Eq, Structural)]
pub struct AlertSettings {
    /// Seconds between two looks at the live data.
    pub poll_secs: u64,
    /// How many stops before the boarding stop to alert (1: at the stop before it, 0: by distance only).
    pub alert_stations: u32,
    /// From how many metres on to alert again and again (0: never).
    pub alert_distance_m: u32,
    /// Seconds between two alerts by distance.
    pub repeat_secs: u64,
    /// How many minutes a watch lasts at most.
    pub max_minutes: u64,
}

/// The settings that apply where nobody has changed any.
pub open spec fn default_alerts() -> AlertSettings {
    AlertSettings { poll_secs: 10, alert_stations: 1, alert_distance_m: 500, repeat_secs: 60, max_minutes: 60 }
}

impl Default for AlertSettings {
    fn default() -> (r: Self)
        ensures
            r == default_alerts(),
    {
        AlertSettings { poll_secs: 10, alert_stations: 1, alert_distance_m: 500, repeat_secs: 60, max_minutes: 60 }
    }
}

/// One of the alert settings.
#[derive(Debug, Clone, Copy, PartialEq, Eq, Structural)]
pub enum AlertField {
    Poll,
    Stations,
    Distance,
    Repeat,
    MaxMinutes,
}

/// The name of the setting in requests.
pub open spec fn field_key(field: AlertField) -> Seq<char> {
    match field {
        AlertField::Poll => "poll_secs"@,
        AlertField::Stations => "alert_stations"@,
        AlertField::Distance => "alert_distance_m"@,
        AlertField::Repeat => "repeat_secs"@,
        AlertField::MaxMinutes => "max_minutes"@,
    }
}

/// The name of the setting as shown.
pub open spec fn field_label(field: AlertField) -> Seq<char> {
    match field {
        AlertField::Poll => "刷新间隔"@,
        AlertField::Stations => "提前提醒"@,
        AlertField::Distance => "距离提醒"@,
        AlertField::Repeat => "重复间隔"@,
        AlertField::MaxMinutes => "最长盯车"@,
    }
}

/// The unit of the setting as shown.
pub open spec fn field_unit(field: AlertField) -> Seq<char> {
    match field {
        AlertField::Poll => "秒"@,
        AlertField::Stations => "站"@,
        AlertField::Distance => "米"@,
        AlertField::Repeat => "秒"@,
        AlertField::MaxMinutes => "分钟"@,
    }
}

/// By how much a press of a button changes the setting.
pub open spec fn field_step(field: AlertField) -> u64 {
    match field {
        AlertField::Poll => 5,
        AlertField::Stations => 1,
        AlertField::Distance => 100,
        AlertField::Repeat => 15,
        AlertField::MaxMinutes => 10,
    }
}

/// The smallest and the largest value of the setting.
pub open spec fn field_range(field: AlertField) -> (u64, u64) {
    match field {
        AlertField::Poll => (5, 120),
        AlertField::Stations => (0, 10),
        AlertField::Distance => (0, 5000),
        AlertField::Repeat => (15, 600),
        AlertField::MaxMinutes => (5, 240),
    }
}

/// The value in the range of the setting that is nearest to `value`.
pub open spec fn limited(field: AlertField, value: int) -> u64 {
    let (low, high) = field_range(field);
    if value < low {
        low
    } else if value > high {
        high
    } else {
        value as u64
    }
}

/// The value of one setting.
pub open spec fn setting(a: AlertSettings, field: AlertField) -> u64 {
    match field {
        AlertField::Poll => a.poll_secs,
        AlertField::Stations => a.alert_stations as u64,
        AlertField::Distance => a.alert_distance_m as u64,
        AlertField::Repeat => a.repeat_secs,
        AlertField::MaxMinutes => a.max_minutes,
    }
}

/// The settings with one of them set to the value nearest to `value` in its range.
pub open spec fn with_setting(a: AlertSettings, field: AlertField, value: int) -> AlertSettings {
    let v = limited(field, value);
    match field {
        AlertField::Poll => AlertSettings { poll_secs: v, ..a },
        AlertField::Stations => AlertSettings { alert_stations: v as u32, ..a },
        AlertField::Distance => AlertSettings { alert_distance_m: v as u32, ..a },
        AlertField::Repeat => AlertSettings { repeat_secs: v, ..a },
        AlertField::MaxMinutes => AlertSettings { max_minutes: v, ..a },
    }
}

/// Every setting is in its range.
pub open spec fn in_limits(a: AlertSettings) -> bool {
    forall|field: AlertField|
        field_range(field).0 <= #[trigger] setting(a, field) <= field_range(field).1
}

/// The settings, each moved to the nearest value in its range.
pub open spec fn all_limited(a: AlertSettings) -> AlertSettings {
    AlertSettings {
        poll_secs: limited(AlertField::Poll, a.poll_secs as int),
        alert_stations: limited(AlertField::Stations, a.alert_stations as int) as u32,
        alert_distance_m: limited(AlertField::Distance, a.alert_distance_m as int) as u32,
        repeat_secs: limited(AlertField::Repeat, a.repeat_secs as int),
        max_minutes: limited(AlertField::MaxMinutes, a.max_minutes as int),
    }
}

/// The value that `steps` steps lead to from the present one, before it is moved into its range.
pub open spec fn stepped(a: AlertSettings, field: AlertField, steps: i64) -> int {
    let next = signed(setting(a, field)) + steps * field_step(field);
    if next < 0 {
        0
    } else {
        next
    }
}

/// Settings that are within their limits are not changed by limiting them.
pub proof fn law_limited_settings_stay(a: AlertSettings)
    ensures
        in_limits(all_limited(a)),
        in_limits(a) ==> all_limited(a) == a,
{
    assert(in_limits(a) ==> all_limited(a) == a) by {
        if in_limits(a) {
            assert(setting(a, AlertField::Poll) == a.poll_secs);
            assert(setting(a, AlertField::Stations) == a.alert_stations);
            assert(setting(a, AlertField::Distance) == a.alert_distance_m);
            assert(setting(a, AlertField::Repeat) == a.repeat_secs);
            assert(setting(a, AlertField::MaxMinutes) == a.max_minutes);
        }
    }
}

/// Setting one value leaves the others as they are, and leaves the value read back in its range.
pub proof fn law_setting_one_keeps_the_rest(a: AlertSettings, field: AlertField, value: int, other: AlertField)
    ensures
        setting(with_setting(a, field, value), field) == limited(field, value),
        other != field ==> setting(with_setting(a, field, value), other) == setting(a, other),
{
}

/// Two settings have two names.
pub proof fn law_field_keys_differ(a: AlertField, b: AlertField)
    ensures
        a != b ==> field_key(a) != field_key(b),
{
    reveal_strlit("poll_secs");
    reveal_strlit("alert_stations");
    reveal_strlit("alert_distance_m");
    reveal_strlit("repeat_secs");
    reveal_strlit("max_minutes");
    assert("poll_secs"@[0] == 'p');
    assert("repeat_secs"@[0] == 'r');
    assert("max_minutes"@[0] == 'm');
    assert("alert_stations"@[6] == 's');
    assert("alert_distance_m"@[6] == 'd');
    assert("alert_stations"@[0] == 'a');
    assert("alert_distance_m"@[0] == 'a');
}

impl AlertField {
    pub const ALL: [AlertField; 5] = [
        AlertField::Poll,
        AlertField::Stations,
        AlertField::Distance,
        AlertField::Repeat,
        AlertField::MaxMinutes,
    ];

    /// The name of the setting in requests.
    pub fn key(self) -> (r: &'static str)
        ensures
            r@ == field_key(self),
    {
        match self {
            AlertField::Poll => "poll_secs",
            AlertField::Stations => "alert_stations",
            AlertField::Distance => "alert_distance_m",
            AlertField::Repeat => "repeat_secs",
            AlertField::MaxMinutes => "max_minutes",
        }
    }

    /// The setting of that name.
    pub fn parse(key: &str) -> (r: Option<AlertField>)
        ensures
            match r {
                Some(field) => field_key(field) == key@,
                None => forall|field: AlertField| #[trigger] field_key(field) != key@,
            },
    {
        if same(key, "poll_secs") {
            Some(AlertField::Poll)
        } else if same(key, "alert_stations") {
            Some(AlertField::Stations)
        } else if same(key, "alert_distance_m") {
            Some(AlertField::Distance)
        } else if same(key, "repeat_secs") {
            Some(AlertField::Repeat)
        } else if same(key, "max_minutes") {
            Some(AlertField::MaxMinutes)
        } else {
            None
        }
    }

    /// The name of the setting as shown.
    pub fn label(self) -> (r: &'static str)
        ensures
            r@ == field_label(self),
    {
        match self {
            AlertField::Poll => "刷新间隔",
            AlertField::Stations => "提前提醒",
            AlertField::Distance => "距离提醒",
            AlertField::Repeat => "重复间隔",
            AlertField::MaxMinutes => "最长盯车",
        }
    }

    /// The unit of the setting as shown.
    pub fn unit(self) -> (r: &'static str)
        ensures
            r@ == field_unit(self),
    {
        match self {
            AlertField::Poll | AlertField::Repeat => "秒",
            AlertField::Stations => "站",
            AlertField::Distance => "米",
            AlertField::MaxMinutes => "分钟",
        }
    }

    /// By how much a press of a button changes the setting.
    pub fn step(self) -> (r: u64)
        ensures
            r == field_step(self),
    {
        match self {
            AlertField::Poll => 5,
            AlertField::Stations => 1,
            AlertField::Distance => 100,
            AlertField::Repeat => 15,
            AlertField::MaxMinutes => 10,
        }
    }

    /// The smallest and the largest value of the setting.
    pub fn range(self) -> (r: (u64, u64))
        ensures
            r == field_range(self),
    {
        match self {
            AlertField::Poll => (5, 120),
            AlertField::Stations => (0, 10),
            AlertField::Distance => (0, 5000),
            AlertField::Repeat => (15, 600),
            AlertField::MaxMinutes => (5, 240),
        }
    }
}

impl AlertSettings {
    /// The value of one setting.
    pub fn get(&self, field: AlertField) -> (r: u64)
        ensures
            r == setting(*self, field),
    {
        match field {
            AlertField::Poll => self.poll_secs,
            AlertField::Stations => self.alert_stations as u64,
            AlertField::Distance => self.alert_distance_m as u64,
            AlertField::Repeat => self.repeat_secs,
            AlertField::MaxMinutes => self.max_minutes,
        }
    }

    /// Sets one setting to the nearest value in its range, and returns that value.
    pub fn set(&mut self, field: AlertField, value: u64) -> (r: u64)
        ensures
            r == limited(field, value as int),
            *final(self) == with_setting(*old(self), field, value as int),
    {
        let (low, high) = field.range();
        let value: u64 = if value < low {
            low
        } else if value > high {
            high
        } else {
            value
        };
        match field {
            AlertField::Poll => self.poll_secs = value,
            AlertField::Stations => self.alert_stations = value as u32,
            AlertField::Distance => self.alert_distance_m = value as u32,
            AlertField::Repeat => self.repeat_secs = value,
            AlertField::MaxMinutes => self.max_minutes = value,
        }
        value
    }

    /// Changes one setting by `steps` steps, within its range, and returns the new value.
    pub fn adjust(&mut self, field: AlertField, steps: i64) -> (r: u64)
        ensures
            r == limited(field, stepped(*old(self), field, steps)),
            *final(self) == with_setting(*old(self), field, stepped(*old(self), field, steps)),
    {
        let current: i64 = as_signed(self.get(field));
        let step: u64 = field.step();
        assert(-0x8000_0000_0000_0000 * 100 <= steps * step <= 0x8000_0000_0000_0000 * 100) by (nonlinear_arith)
            requires
                step <= 100,
                -0x8000_0000_0000_0000 <= steps <= 0x7fff_ffff_ffff_ffff,
        ;
        let next: i128 = current as i128 + (steps as i128) * (step as i128);
        let next: u64 = if next < 0 {
            0
        } else if next > 10_000 {
            10_000
        } else {
            next as u64
        };
        self.set(field, next)
    }

    /// The settings, each moved to the nearest value in its range.
    pub fn clamped(self) -> (r: AlertSettings)
        ensures
            r == all_limited(self),
            in_limits(r),
    {
        let mut r = self;
        let _ = r.set(AlertField::Poll, self.poll_secs);
        let _ = r.set(AlertField::Stations, self.alert_stations as u64);
        let _ = r.set(AlertField::Distance, self.alert_distance_m as u64);
        let _ = r.set(AlertField::Repeat, self.repeat_secs);
        let _ = r.set(AlertField::MaxMinutes, self.max_minutes);
        proof {
            law_limited_settings_stay(self);
        }
        r
    }
}

// ─── what is kept of a user ───

/// A watch: waiting at a stop of a line for a vehicle.
#[derive(Debug)]
pub struct WatchSpec {
    pub service: String,
    pub city_label: String,
    pub line_name: String,
    pub direction: String,
    pub station_name: String,
    pub order: u32,
    pub chat_id: i64,
    /// The card message that is updated in place.
    pub card_message_id: i64,
    /// The vehicle to wait for; none: whichever comes first.
    pub target_bus: Option<String>,
    pub started_at: u64,
}

/// What a [`WatchSpec`] holds.
#[verifier::ext_equal]
pub struct WatchSpecModel {
    pub service: Seq<char>,
    pub city_label: Seq<char>,
    pub line_name: Seq<char>,
    pub direction: Seq<char>,
    pub station_name: Seq<char>,
    pub order: u32,
    pub chat_id: i64,
    pub card_message_id: i64,
    pub target_bus: Option<Seq<char>>,
    pub started_at: u64,
}

impl View for WatchSpec {
    type V = WatchSpecModel;

    open spec fn view(&self) -> WatchSpecModel {
        WatchSpecModel {
            service: self.service@,
            city_label: self.city_label@,
            line_name: self.line_name@,
            direction: self.direction@,
            station_name: self.station_name@,
            order: self.order,
            chat_id: self.chat_id,
            card_message_id: self.card_message_id,
            target_bus: opt_view(self.target_bus),
            started_at: self.started_at,
        }
    }
}

impl WatchSpec {
    /// What a list of [`WatchSpec`] holds.
    pub open spec fn models(list: Seq<WatchSpec>) -> Seq<WatchSpecModel> {
        list.map_values(|x: WatchSpec| x@)
    }
}

impl Clone for WatchSpec {
    fn clone(&self) -> (r: Self)
        ensures
            r@ == self@,
    {
        let r = WatchSpec {
            service: self.service.clone(),
            city_label: self.city_label.clone(),
            line_name: self.line_name.clone(),
            direction: self.direction.clone(),
            station_name: self.station_name.clone(),
            order: self.order,
            chat_id: self.chat_id,
            card_message_id: self.card_message_id,
            target_bus: self.target_bus.clone(),
            started_at: self.started_at,
        };
        r
    }
}

/// How a watch is called.
pub open spec fn watch_label(w: WatchSpecModel) -> Seq<char> {
    match w.target_bus {
        Some(bus) => w.line_name + " @ "@ + w.station_name + " · 车辆 "@ + bus,
        None => w.line_name + " @ "@ + w.station_name + " · 最近一班"@,
    }
}

/// "line @ stop".
pub open spec fn at_stop(line_name: Seq<char>, station_name: Seq<char>) -> Seq<char> {
    line_name + " @ "@ + station_name
}

fn at_stop_text(line_name: &str, station_name: &str) -> (r: String)
    ensures
        r@ == at_stop(line_name@, station_name@),
{
    let mut r = copy(line_name);
    r.append(" @ ");
    r.append(station_name);
    r
}

impl WatchSpec {
    /// How the watch is called.
    pub fn label(&self) -> (r: String)
        ensures
            r@ == watch_label(self@),
    {
        let mut r = at_stop_text(self.line_name.as_str(), self.station_name.as_str());
        match &self.target_bus {
            Some(bus) => {
                r.append(" · 车辆 ");
                r.append(bus.as_str());
            },
            None => {
                r.append(" · 最近一班");
            },
        }
        r
    }
}

/// A favourite: a line at a boarding stop.
#[derive(Debug)]
pub struct Favorite {
    pub service: String,
    pub city_label: String,
    pub line_name: String,
    pub direction: String,
    pub station_name: String,
    pub order: u32,
    pub added_at: u64,
    pub hits: u32,
    pub last_at: u64,
}

/// What a [`Favorite`] holds.
#[verifier::ext_equal]
pub struct FavoriteModel {
    pub service: Seq<char>,
    pub city_label: Seq<char>,
    pub line_name: Seq<char>,
    pub direction: Seq<char>,
    pub station_name: Seq<char>,
    pub order: u32,
    pub added_at: u64,
    pub hits: u32,
    pub last_at: u64,
}

impl View for Favorite {
    type V = FavoriteModel;

    open spec fn view(&self) -> FavoriteModel {
        FavoriteModel {
            service: self.service@,
            city_label: self.city_label@,
            line_name: self.line_name@,
            direction: self.direction@,
            station_name: self.station_name@,
            order: self.order,
            added_at: self.added_at,
            hits: self.hits,
            last_at: self.last_at,
        }
    }
}

impl Favorite {
    /// What a list of [`Favorite`] holds.
    pub open spec fn models(list: Seq<Favorite>) -> Seq<FavoriteModel> {
        list.map_values(|x: Favorite| x@)
    }
}

impl Clone for Favorite {
    fn clone(&self) -> (r: Self)
        ensures
            r@ == self@,
    {
        let r = Favorite {
            service: self.service.clone(),
            city_label: self.city_label.clone(),
            line_name: self.line_name.clone(),
            direction: self.direction.clone(),
            station_name: self.station_name.clone(),
            order: self.order,
            added_at: self.added_at,
            hits: self.hits,
            last_at: self.last_at,
        };
        r
    }
}

impl Default for Favorite {
    fn default() -> (r: Self)
        ensures
            r@ == (FavoriteModel {
                service: Seq::empty(),
                city_label: Seq::empty(),
                line_name: Seq::empty(),
                direction: Seq::empty(),
                station_name: Seq::empty(),
                order: 0,
                added_at: 0,
                hits: 0,
                last_at: 0,
            }),
    {
        Favorite {
            service: String::new(),
            city_label: String::new(),
            line_name: String::new(),
            direction: String::new(),
            station_name: String::new(),
            order: 0,
            added_at: 0,
            hits: 0,
            last_at: 0,
        }
    }
}

impl Favorite {
    /// How the favourite is called.
    pub fn label(&self) -> (r: String)
        ensures
            r@ == at_stop(self@.line_name, self@.station_name),
    {
        at_stop_text(self.line_name.as_str(), self.station_name.as_str())
    }
}

/// How often a line is looked up at a stop.
#[derive(Debug)]
pub struct Habit {
    pub key: String,
    pub label: String,
    pub service: String,
    pub line_name: String,
    pub direction: String,
    pub station_name: String,
    pub order: u32,
    /// How often in each hour of the day.
    pub hours: Vec<u32>,
    pub total: u32,
    pub last_at: u64,
}

/// What a [`Habit`] holds.
#[verifier::ext_equal]
pub struct HabitModel {
    pub key: Seq<char>,
    pub label: Seq<char>,
    pub service: Seq<char>,
    pub line_name: Seq<char>,
    pub direction: Seq<char>,
    pub station_name: Seq<char>,
    pub order: u32,
    pub hours: Seq<u32>,
    pub total: u32,
    pub last_at: u64,
}

impl View for Habit {
    type V = HabitModel;

    open spec fn view(&self) -> HabitModel {
        HabitModel {
            key: self.key@,
            label: self.label@,
            service: self.service@,
            line_name: self.line_name@,
            direction: self.direction@,
            station_name: self.station_name@,
            order: self.order,
            hours: self.hours@,
            total: self.total,
            last_at: self.last_at,
        }
    }
}

impl Habit {
    /// What a list of [`Habit`] holds.
    pub open spec fn models(list: Seq<Habit>) -> Seq<HabitModel> {
        list.map_values(|x: Habit| x@)
    }
}

impl Clone for Habit {
    fn clone(&self) -> (r: Self)
        ensures
            r@ == self@,
    {
        let r = Habit {
            key: self.key.clone(),
            label: self.label.clone(),
            service: self.service.clone(),
            line_name: self.line_name.clone(),
            direction: self.direction.clone(),
            station_name: self.station_name.clone(),
            order: self.order,
            hours: self.hours.clone(),
            total: self.total,
            last_at: self.last_at,
        };
        proof {
            assert(r.hours@ =~= self.hours@);
        }
        r
    }
}

/// How often in one hour of the day; any number of hours from midnight may be given.
pub open spec fn times_in(hours: Seq<u32>, hour: int) -> nat {
    if hour % 24 < hours.len() {
        hours[hour % 24] as nat
    } else {
        0
    }
}

/// How busy a line is around an hour: the hour itself counts three times, its neighbours once.
pub open spec fn score(hours: Seq<u32>, hour: u32) -> nat {
    times_in(hours, hour as int) * 3 + times_in(hours, hour - 1) + times_in(hours, hour + 1)
}

fn times_at(hours: &Vec<u32>, hour: u64) -> (r: u64)
    ensures
        r == times_in(hours@, hour as int),
        r <= u32::MAX,
{
    let h: usize = (hour % 24) as usize;
    if h < hours.len() {
        hours[h] as u64
    } else {
        0
    }
}

impl Habit {
    fn heat(&self, hour: u32) -> (r: u64)
        ensures
            r == score(self@.hours, hour),
            r <= 5 * 0xffff_ffff,
    {
        let hour: u64 = hour as u64;
        assert((hour + 23) % 24 == (hour - 1) % 24);
        times_at(&self.hours, hour) * 3 + times_at(&self.hours, hour + 23) + times_at(&self.hours, hour + 1)
    }

    /// How busy the line is around an hour.
    pub fn score_at(&self, hour: u32) -> (r: u32)
        requires
            score(self@.hours, hour) <= u32::MAX,
        ensures
            r == score(self@.hours, hour),
    {
        self.heat(hour) as u32
    }
}

/// What the bot is waiting for the user to type.
#[derive(Debug, Clone, Copy, PartialEq, Eq, Structural)]
pub enum Pending {
    Nothing,
    /// The name of a city.
    City,
    /// A keyword for a line.
    Line,
}

impl Default for Pending {
    fn default() -> (r: Self)
        ensures
            r == Pending::Nothing,
    {
        Pending::Nothing
    }
}

/// How that is written down.
pub open spec fn pending_name(pending: Pending) -> Seq<char> {
    match pending {
        Pending::Nothing => "None"@,
        Pending::City => "City"@,
        Pending::Line => "Line"@,
    }
}

/// What has been written down; an unknown word stands for nothing.
pub open spec fn pending_named(name: Seq<char>) -> Pending {
    if name == "City"@ {
        Pending::City
    } else if name == "Line"@ {
        Pending::Line
    } else {
        Pending::Nothing
    }
}

impl Pending {
    /// How it is written down.
    pub fn as_str(self) -> (r: &'static str)
        ensures
            r@ == pending_name(self),
    {
        match self {
            Pending::Nothing => "None",
            Pending::City => "City",
            Pending::Line => "Line",
        }
    }

    /// What has been written down.
    pub fn from_str(name: &str) -> (r: Pending)
        ensures
            r == pending_named(name@),
    {
        if same(name, "City") {
            Pending::City
        } else if same(name, "Line") {
            Pending::Line
        } else {
            Pending::Nothing
        }
    }
}

/// What is written down is read back.
pub proof fn law_pending_reads_back(pending: Pending)
    ensures
        pending_named(pending_name(pending)) == pending,
{
    reveal_strlit("None");
    reveal_strlit("City");
    reveal_strlit("Line");
    assert("None"@[0] == 'N');
    assert("City"@[0] == 'C');
    assert("Line"@[0] == 'L');
}

/// What is kept of a user.
#[derive(Debug)]
pub struct UserState {
    /// The id of the chosen data source.
    pub service: Option<String>,
    /// The city and the source as shown.
    pub city_label: Option<String>,
    pub favorites: Vec<Favorite>,
    pub habits: Vec<Habit>,
    pub queries: u32,
    pub first_seen: u64,
    pub last_seen: u64,
    /// The last position, in the coordinates of the sources.
    pub last_location: Option<GeoPoint>,
    pub pending: Pending,
    /// None: the global defaults.
    pub alerts: Option<AlertSettings>,
    pub watch: Option<WatchSpec>,
    pub banned: bool,
    pub display_name: String,
    pub username: Option<String>,
}

/// What a [`UserState`] holds.
#[verifier::ext_equal]
pub struct UserStateModel {
    pub service: Option<Seq<char>>,
    pub city_label: Option<Seq<char>>,
    pub favorites: Seq<FavoriteModel>,
    pub habits: Seq<HabitModel>,
    pub queries: u32,
    pub first_seen: u64,
    pub last_seen: u64,
    pub last_location: Option<GeoPoint>,
    pub pending: Pending,
    pub alerts: Option<AlertSettings>,
    pub watch: Option<WatchSpecModel>,
    pub banned: bool,
    pub display_name: Seq<char>,
    pub username: Option<Seq<char>>,
}

impl View for UserState {
    type V = UserStateModel;

    open spec fn view(&self) -> UserStateModel {
        UserStateModel {
            service: opt_view(self.service),
            city_label: opt_view(self.city_label),
            favorites: Favorite::models(self.favorites@),
            habits: Habit::models(self.habits@),
            queries: self.queries,
            first_seen: self.first_seen,
            last_seen: self.last_seen,
            last_location: self.last_location,
            pending: self.pending,
            alerts: self.alerts,
            watch: (match self.watch { Some(x) => Some(x@), None => None }),
            banned: self.banned,
            display_name: self.display_name@,
            username: opt_view(self.username),
        }
    }
}

impl UserState {
    /// What a list of [`UserState`] holds.
    pub open spec fn models(list: Seq<UserState>) -> Seq<UserStateModel> {
        list.map_values(|x: UserState| x@)
    }
}

impl Clone for UserState {
    fn clone(&self) -> (r: Self)
        ensures
            r@ == self@,
    {
        let r = UserState {
            service: self.service.clone(),
            city_label: self.city_label.clone(),
            favorites: self.favorites.clone(),
            habits: self.habits.clone(),
            queries: self.queries,
            first_seen: self.first_seen,
            last_seen: self.last_seen,
            last_location: self.last_location,
            pending: self.pending,
            alerts: self.alerts,
            watch: self.watch.clone(),
            banned: self.banned,
            display_name: self.display_name.clone(),
            username: self.username.clone(),
        };
        proof {
            assert(Favorite::models(r.favorites@) =~= Favorite::models(self.favorites@));
            assert(Habit::models(r.habits@) =~= Habit::models(self.habits@));
        }
        r
    }
}

/// A user of whom nothing is known.
pub open spec fn new_user() -> UserStateModel {
    UserStateModel {
        service: None,
        city_label: None,
        favorites: Seq::empty(),
        habits: Seq::empty(),
        queries: 0,
        first_seen: 0,
        last_seen: 0,
        last_location: None,
        pending: Pending::Nothing,
        alerts: None,
        watch: None,
        banned: false,
        display_name: Seq::empty(),
        username: None,
    }
}

impl Default for UserState {
    fn default() -> (r: Self)
        ensures
            r@ == new_user(),
    {
        let r = UserState {
            service: None,
            city_label: None,
            favorites: Vec::new(),
            habits: Vec::new(),
            queries: 0,
            first_seen: 0,
            last_seen: 0,
            last_location: None,
            pending: Pending::Nothing,
            alerts: None,
            watch: None,
            banned: false,
            display_name: String::new(),
            username: None,
        };
        assert(Favorite::models(r.favorites@) =~= Seq::<FavoriteModel>::empty());
        assert(Habit::models(r.habits@) =~= Seq::<HabitModel>::empty());
        r
    }
}

/// The defaults for all users.
#[derive(Debug, Clone, Copy, PartialEq, Eq, Structural)]
pub struct GlobalSettings {
    pub defaults: AlertSettings,
    /// Whether a user without a record may start.
    pub allow_new_users: bool,
}

/// The defaults before anybody has changed them.
pub open spec fn default_settings() -> GlobalSettings {
    GlobalSettings { defaults: default_alerts(), allow_new_users: true }
}

impl Default for GlobalSettings {
    fn default() -> (r: Self)
        ensures
            r == default_settings(),
    {
        GlobalSettings { defaults: AlertSettings::default(), allow_new_users: true }
    }
}

/// The key of a habit.
pub open spec fn habit_key_of(service: Seq<char>, direction: Seq<char>, order: u32) -> Seq<char> {
    service + "|"@ + direction + "|"@ + dec(order as nat)
}

/// The key of a habit.
pub fn habit_key(service: &str, direction: &str, order: u32) -> (r: String)
    ensures
        r@ == habit_key_of(service@, direction@, order),
{
    let mut r = copy(service);
    r.append("|");
    r.append(direction);
    r.append("|");
    r.append(decimal(order as u64).as_str());
    r
}

/// Whether a favourite is this line at this stop.
pub open spec fn is_trip(f: FavoriteModel, service: Seq<char>, direction: Seq<char>, order: u32) -> bool {
    f.service == service && f.direction == direction && f.order == order
}

/// The position of the first favourite for a line at a stop; the number of favourites if there is none.
pub open spec fn trip_index(favorites: Seq<FavoriteModel>, service: Seq<char>, direction: Seq<char>, order: u32) -> int {
    first_where(favorites, |f: FavoriteModel| is_trip(f, service, direction, order))
}

/// Whether a line at a stop is among the favourites.
pub open spec fn has_trip(favorites: Seq<FavoriteModel>, service: Seq<char>, direction: Seq<char>, order: u32) -> bool {
    trip_index(favorites, service, direction, order) < favorites.len()
}

/// The favourites after the button for a favourite was pressed: removed where it was one, added at
/// the end where it was none.
pub open spec fn toggled(favorites: Seq<FavoriteModel>, candidate: FavoriteModel, now: u64) -> Seq<FavoriteModel> {
    let i = trip_index(favorites, candidate.service, candidate.direction, candidate.order);
    if i < favorites.len() {
        favorites.remove(i)
    } else {
        favorites.push(FavoriteModel { added_at: now, ..candidate })
    }
}

/// One more, up to the largest number there is.
pub open spec fn one_more(n: u32) -> u32 {
    if n < u32::MAX {
        (n + 1) as u32
    } else {
        n
    }
}

/// `hours` with one more in `hour`; a list that is too short is filled with zeros.
pub open spec fn counted(hours: Seq<u32>, hour: int) -> Seq<u32> {
    let full = if hours.len() < 24 {
        Seq::new(24, |i: int| if i < hours.len() { hours[i] } else { 0u32 })
    } else {
        hours
    };
    full.update(hour, one_more(full[hour]))
}

/// The hour that a query is counted under.
pub open spec fn slot(hour: u32) -> int {
    if hour < 23 {
        hour as int
    } else {
        23
    }
}

/// The position of the habit of that key; the number of habits if there is none.
pub open spec fn habit_index(habits: Seq<HabitModel>, key: Seq<char>) -> int {
    first_where(habits, |h: HabitModel| h.key == key)
}

/// The habits after one more query.
pub open spec fn habits_after(
    habits: Seq<HabitModel>,
    service: Seq<char>,
    line_name: Seq<char>,
    direction: Seq<char>,
    station_name: Seq<char>,
    order: u32,
    hour: u32,
    now: u64,
) -> Seq<HabitModel> {
    let key = habit_key_of(service, direction, order);
    let i = habit_index(habits, key);
    if i < habits.len() {
        let h = habits[i];
        habits.update(
            i,
            HabitModel {
                hours: counted(h.hours, slot(hour)),
                total: one_more(h.total),
                last_at: now,
                label: at_stop(line_name, station_name),
                line_name: line_name,
                station_name: station_name,
                ..h
            },
        )
    } else {
        habits.push(
            HabitModel {
                key: key,
                label: at_stop(line_name, station_name),
                service: service,
                line_name: line_name,
                direction: direction,
                station_name: station_name,
                order: order,
                hours: Seq::new(24, |i: int| if i == slot(hour) { 1u32 } else { 0u32 }),
                total: 1,
                last_at: now,
            },
        )
    }
}

/// The favourites after one more query: the one that was looked up is hit once more.
pub open spec fn favorites_after(
    favorites: Seq<FavoriteModel>,
    service: Seq<char>,
    direction: Seq<char>,
    order: u32,
    now: u64,
) -> Seq<FavoriteModel> {
    let i = trip_index(favorites, service, direction, order);
    if i < favorites.len() {
        let f = favorites[i];
        favorites.update(i, FavoriteModel { hits: one_more(f.hits), last_at: now, ..f })
    } else {
        favorites
    }
}

/// The user after one more query.
pub open spec fn queried(
    user: UserStateModel,
    service: Seq<char>,
    line_name: Seq<char>,
    direction: Seq<char>,
    station_name: Seq<char>,
    order: u32,
    hour: u32,
    now: u64,
) -> UserStateModel {
    UserStateModel {
        queries: one_more(user.queries),
        last_seen: now,
        habits: habits_after(user.habits, service, line_name, direction, station_name, order, hour, now),
        favorites: favorites_after(user.favorites, service, direction, order, now),
        ..user
    }
}

/// What habits are ordered by: the most queries first, then the latest.
pub open spec fn total_key(h: HabitModel) -> Seq<u64> {
    seq![(u64::MAX - h.total) as u64, (u64::MAX - h.last_at) as u64]
}

/// What suggestions are ordered by: the busiest around the hour first, then the most queries.
pub open spec fn heat_key(h: HabitModel, hour: u32) -> Seq<u64> {
    seq![(u64::MAX - score(h.hours, hour)) as u64, (u64::MAX - h.total) as u64]
}

/// At most the first `limit` items.
pub open spec fn first_few<T>(s: Seq<T>, limit: int) -> Seq<T> {
    if limit < s.len() {
        s.take(limit)
    } else {
        s
    }
}

/// The lines looked up most, most first.
pub open spec fn most_queried(habits: Seq<HabitModel>, limit: int) -> Seq<HabitModel> {
    first_few(arranged(habits, stable_order(habits.map_values(|h: HabitModel| total_key(h)))), limit)
}

/// The lines that are looked up around an hour, busiest first.
pub open spec fn suggested(habits: Seq<HabitModel>, hour: u32, limit: int) -> Seq<HabitModel> {
    let busy = habits.filter(|h: HabitModel| score(h.hours, hour) > 0);
    first_few(arranged(busy, stable_order(busy.map_values(|h: HabitModel| heat_key(h, hour)))), limit)
}

/// What a list of references to habits holds.
pub open spec fn habit_refs(list: Seq<&Habit>) -> Seq<HabitModel> {
    list.map_values(|h: &Habit| h@)
}

/// The queries in one hour of the day, over all habits.
pub open spec fn hour_sum(habits: Seq<HabitModel>, hour: int) -> nat
    decreases habits.len(),
{
    if habits.len() == 0 {
        0
    } else {
        let h = habits.last().hours;
        hour_sum(habits.drop_last(), hour) + if hour < h.len() {
            h[hour] as nat
        } else {
            0
        }
    }
}

/// `n`, or the largest number there is.
pub open spec fn capped(n: nat) -> u32 {
    if n < u32::MAX {
        n as u32
    } else {
        u32::MAX
    }
}

/// Pressing the button twice: whoever was no favourite before is none after, and the other
/// favourites are as they were.
pub proof fn law_toggling_twice_restores(favorites: Seq<FavoriteModel>, candidate: FavoriteModel, t1: u64, t2: u64)
    requires
        !has_trip(favorites, candidate.service, candidate.direction, candidate.order),
    ensures
        has_trip(toggled(favorites, candidate, t1), candidate.service, candidate.direction, candidate.order),
        toggled(toggled(favorites, candidate, t1), candidate, t2) == favorites,
{
    let p = |f: FavoriteModel| is_trip(f, candidate.service, candidate.direction, candidate.order);
    crate::seqs::lemma_first_where_is(favorites, p);
    let once = toggled(favorites, candidate, t1);
    assert(once == favorites.push(FavoriteModel { added_at: t1, ..candidate }));
    assert forall|j: int| 0 <= j < favorites.len() implies !p(#[trigger] once[j]) by {
        assert(once[j] == favorites[j]);
    }
    lemma_first_where(once, p, favorites.len() as int);
    assert(once.remove(favorites.len() as int) =~= favorites);
}

/// No line at a stop is twice among the favourites.
pub open spec fn trips_differ(favorites: Seq<FavoriteModel>) -> bool {
    forall|i: int, j: int|
        0 <= i < j < favorites.len() ==> !is_trip(
            #[trigger] favorites[j],
            (#[trigger] favorites[i]).service,
            favorites[i].direction,
            favorites[i].order,
        )
}

/// Pressing the button of a favourite keeps the favourites different from each other.
pub proof fn law_toggling_keeps_favorites_different(favorites: Seq<FavoriteModel>, candidate: FavoriteModel, now: u64)
    requires
        trips_differ(favorites),
    ensures
        trips_differ(toggled(favorites, candidate, now)),
{
    let p = |f: FavoriteModel| is_trip(f, candidate.service, candidate.direction, candidate.order);
    crate::seqs::lemma_first_where_is(favorites, p);
    let after = toggled(favorites, candidate, now);
    let k = first_where(favorites, p);
    assert forall|i: int, j: int| 0 <= i < j < after.len() implies !is_trip(
        #[trigger] after[j],
        (#[trigger] after[i]).service,
        after[i].direction,
        after[i].order,
    ) by {
        if k < favorites.len() {
            let a = if i < k { i } else { i + 1 };
            let b = if j < k { j } else { j + 1 };
            assert(after[i] == favorites[a]);
            assert(after[j] == favorites[b]);
        } else if j == favorites.len() {
            assert(after[i] == favorites[i]);
            assert(!p(favorites[i]));
        } else {
            assert(after[i] == favorites[i]);
            assert(after[j] == favorites[j]);
        }
    }
}

/// No two habits have the same key.
pub open spec fn keys_differ(habits: Seq<HabitModel>) -> bool {
    forall|i: int, j: int| 0 <= i < j < habits.len() ==> (#[trigger] habits[i]).key != (#[trigger] habits[j]).key
}

/// Counting a query keeps the habits different from each other, and the favourites too.
pub proof fn law_counting_keeps_habits_different(
    user: UserStateModel,
    service: Seq<char>,
    line_name: Seq<char>,
    direction: Seq<char>,
    station_name: Seq<char>,
    order: u32,
    hour: u32,
    now: u64,
)
    requires
        keys_differ(user.habits),
        trips_differ(user.favorites),
    ensures
        keys_differ(queried(user, service, line_name, direction, station_name, order, hour, now).habits),
        trips_differ(queried(user, service, line_name, direction, station_name, order, hour, now).favorites),
{
    let key = habit_key_of(service, direction, order);
    crate::seqs::lemma_first_where_is(user.habits, |h: HabitModel| h.key == key);
    crate::seqs::lemma_first_where_is(user.favorites, |f: FavoriteModel| is_trip(f, service, direction, order));
    let after = queried(user, service, line_name, direction, station_name, order, hour, now);
    assert forall|i: int, j: int| 0 <= i < j < after.favorites.len() implies !is_trip(
        #[trigger] after.favorites[j],
        (#[trigger] after.favorites[i]).service,
        after.favorites[i].direction,
        after.favorites[i].order,
    ) by {
        assert(!is_trip(
            user.favorites[j],
            user.favorites[i].service,
            user.favorites[i].direction,
            user.favorites[i].order,
        ));
    }
}

impl UserState {
    /// The position of the favourite for a line at a stop.
    pub fn favorite_index(&self, service: &str, direction: &str, order: u32) -> (r: Option<usize>)
        ensures
            match r {
                Some(i) => i < self@.favorites.len() && i == trip_index(self@.favorites, service@, direction@, order),
                None => !has_trip(self@.favorites, service@, direction@, order) && trip_index(
                    self@.favorites,
                    service@,
                    direction@,
                    order,
                ) == self@.favorites.len(),
            },
    {
        let ghost p = |f: FavoriteModel| is_trip(f, service@, direction@, order);
        let ghost list = self@.favorites;
        let mut i: usize = 0;
        while i < self.favorites.len()
            invariant
                i <= self.favorites@.len(),
                list == self@.favorites,
                p == (|f: FavoriteModel| is_trip(f, service@, direction@, order)),
                forall|j: int| 0 <= j < i ==> !p(#[trigger] list[j]),
            decreases self.favorites.len() - i,
        {
            let f = &self.favorites[i];
            assert(list[i as int] == f@);
            if same(f.service.as_str(), service) && same(f.direction.as_str(), direction) && f.order == order {
                proof {
                    lemma_first_where(list, p, i as int);
                }
                return Some(i);
            }
            i += 1;
        }
        proof {
            lemma_first_where(list, p, i as int);
        }
        None
    }

    /// Whether a line at a stop is among the favourites.
    pub fn is_favorite(&self, service: &str, direction: &str, order: u32) -> (r: bool)
        ensures
            r == has_trip(self@.favorites, service@, direction@, order),
    {
        self.favorite_index(service, direction, order).is_some()
    }

    /// Adds or removes a favourite at the time `now`; true if it is one afterwards.
    pub fn toggle_favorite_at(&mut self, candidate: Favorite, now: u64) -> (r: bool)
        ensures
            r == !has_trip(old(self)@.favorites, candidate@.service, candidate@.direction, candidate@.order),
            final(self)@ == (UserStateModel {
                favorites: toggled(old(self)@.favorites, candidate@, now),
                ..old(self)@
            }),
    {
        let ghost before = self@.favorites;
        match self.favorite_index(candidate.service.as_str(), candidate.direction.as_str(), candidate.order) {
            Some(index) => {
                let _ = self.favorites.remove(index);
                assert(self@.favorites =~= before.remove(index as int));
                false
            },
            None => {
                self.favorites.push(Favorite { added_at: now, ..candidate });
                assert(self@.favorites =~= before.push(FavoriteModel { added_at: now, ..candidate@ }));
                true
            },
        }
    }

    /// Adds or removes a favourite; true if it is one afterwards.
    pub fn toggle_favorite(&mut self, candidate: Favorite) -> (r: bool)
        ensures
            r == !has_trip(old(self)@.favorites, candidate@.service, candidate@.direction, candidate@.order),
            exists|now: u64|
                final(self)@ == (UserStateModel {
                    favorites: #[trigger] toggled(old(self)@.favorites, candidate@, now),
                    ..old(self)@
                }),
    {
        let now: u64 = now_secs();
        self.toggle_favorite_at(candidate, now)
    }

    fn habit_position(&self, key: &str) -> (r: usize)
        ensures
            r == habit_index(self@.habits, key@),
            r <= self.habits@.len(),
    {
        let ghost p = |h: HabitModel| h.key == key@;
        let ghost list = self@.habits;
        let mut i: usize = 0;
        while i < self.habits.len()
            invariant
                i <= self.habits@.len(),
                list == self@.habits,
                p == (|h: HabitModel| h.key == key@),
                forall|j: int| 0 <= j < i ==> !p(#[trigger] list[j]),
            decreases self.habits.len() - i,
        {
            assert(list[i as int] == self.habits@[i as int]@);
            if same(self.habits[i].key.as_str(), key) {
                proof {
                    lemma_first_where(list, p, i as int);
                }
                return i;
            }
            i += 1;
        }
        proof {
            lemma_first_where(list, p, i as int);
        }
        i
    }

    /// Counts a query at the time `now`.
    pub fn record_query_at(
        &mut self,
        service: &str,
        line_name: &str,
        direction: &str,
        station_name: &str,
        order: u32,
        hour: u32,
        now: u64,
    )
        ensures
            final(self)@ == queried(old(self)@, service@, line_name@, direction@, station_name@, order, hour, now),
    {
        let ghost start = self@;
        self.queries = self.queries.saturating_add(1);
        self.last_seen = now;
        let key = habit_key(service, direction, order);
        let h: usize = if hour < 23 {
            hour as usize
        } else {
            23
        };
        let i: usize = self.habit_position(key.as_str());
        if i < self.habits.len() {
            let ghost was = self.habits@[i as int];
            if self.habits[i].hours.len() < 24 {
                self.habits[i].hours.resize(24, 0);
            }
            let count: u32 = self.habits[i].hours[h];
            self.habits[i].hours[h] = count.saturating_add(1);
            let total: u32 = self.habits[i].total;
            self.habits[i].total = total.saturating_add(1);
            self.habits[i].last_at = now;
            self.habits[i].label = at_stop_text(line_name, station_name);
            self.habits[i].line_name = copy(line_name);
            self.habits[i].station_name = copy(station_name);
            assert(self.habits@[i as int].hours@ =~= counted(was@.hours, slot(hour)));
        } else {
            let mut hours: Vec<u32> = Vec::new();
            hours.resize(24, 0);
            hours[h] = 1;
            assert(hours@ =~= Seq::new(24, |i: int| if i == slot(hour) { 1u32 } else { 0u32 }));
            self.habits.push(
                Habit {
                    key: key,
                    label: at_stop_text(line_name, station_name),
                    service: copy(service),
                    line_name: copy(line_name),
                    direction: copy(direction),
                    station_name: copy(station_name),
                    order: order,
                    hours: hours,
                    total: 1,
                    last_at: now,
                },
            );
        }
        assert(self@.habits =~= habits_after(
            start.habits,
            service@,
            line_name@,
            direction@,
            station_name@,
            order,
            hour,
            now,
        ));
        match self.favorite_index(service, direction, order) {
            Some(index) => {
                let hits: u32 = self.favorites[index].hits;
                self.favorites[index].hits = hits.saturating_add(1);
                self.favorites[index].last_at = now;
            },
            None => {},
        }
        assert(self@.favorites =~= favorites_after(start.favorites, service@, direction@, order, now));
    }

    /// Counts a query.
    pub fn record_query(
        &mut self,
        service: &str,
        line_name: &str,
        direction: &str,
        station_name: &str,
        order: u32,
        hour: u32,
    )
        ensures
            exists|now: u64|
                final(self)@ == #[trigger] queried(
                    old(self)@,
                    service@,
                    line_name@,
                    direction@,
                    station_name@,
                    order,
                    hour,
                    now,
                ),
    {
        let now: u64 = now_secs();
        self.record_query_at(service, line_name, direction, station_name, order, hour, now)
    }

    /// The lines looked up most, most first.
    pub fn top_habits(&self, limit: usize) -> (r: Vec<&Habit>)
        ensures
            habit_refs(r@) == most_queried(self@.habits, limit as int),
    {
        let ghost list = self@.habits;
        let ghost wanted = list.map_values(|h: HabitModel| total_key(h));
        let mut keys: Vec<Vec<u64>> = Vec::new();
        let mut i: usize = 0;
        while i < self.habits.len()
            invariant
                i <= self.habits@.len(),
                list == self@.habits,
                wanted == list.map_values(|h: HabitModel| total_key(h)),
                key_views(keys@) == wanted.take(i as int),
            decreases self.habits.len() - i,
        {
            let h = &self.habits[i];
            assert(list[i as int] == h@);
            let mut key: Vec<u64> = Vec::new();
            key.push(u64::MAX - h.total as u64);
            key.push(u64::MAX - h.last_at);
            assert(key@ =~= total_key(h@));
            let ghost had = key_views(keys@);
            keys.push(key);
            assert(key_views(keys@) =~= had.push(total_key(h@)));
            assert(wanted.take(i + 1) =~= wanted.take(i as int).push(wanted[i as int]));
            i += 1;
        }
        assert(wanted.take(i as int) == wanted);
        let order = order_of(&keys);
        let mut r: Vec<&Habit> = Vec::new();
        let mut k: usize = 0;
        while k < order.len() && k < limit
            invariant
                k <= order@.len(),
                k <= limit,
                list == self@.habits,
                order@.len() == list.len(),
                forall|j: int| 0 <= j < order@.len() ==> (#[trigger] order@[j]) < list.len(),
                habit_refs(r@) == arranged(list, order@).take(k as int),
            decreases order.len() - k,
        {
            assert(order@[k as int] < list.len());
            let ghost had = habit_refs(r@);
            let h = &self.habits[order[k]];
            r.push(h);
            assert(habit_refs(r@) =~= had.push(h@));
            assert(arranged(list, order@).take(k + 1) =~= arranged(list, order@).take(k as int).push(
                arranged(list, order@)[k as int],
            ));
            k += 1;
        }
        assert(arranged(list, order@).take(k as int) =~= first_few(arranged(list, order@), limit as int));
        r
    }

    /// The lines that are looked up around an hour, busiest first.
    pub fn suggestions(&self, hour: u32, limit: usize) -> (r: Vec<&Habit>)
        ensures
            habit_refs(r@) == suggested(self@.habits, hour, limit as int),
    {
        let ghost list = self@.habits;
        let ghost p = |h: HabitModel| score(h.hours, hour) > 0;
        let mut busy: Vec<&Habit> = Vec::new();
        let mut keys: Vec<Vec<u64>> = Vec::new();
        let mut i: usize = 0;
        assert(list.take(0).filter(p) =~= Seq::<HabitModel>::empty()) by {
            reveal(Seq::filter);
        }
        assert(habit_refs(busy@) =~= Seq::<HabitModel>::empty());
        assert(key_views(keys@) =~= habit_refs(busy@).map_values(|h: HabitModel| heat_key(h, hour)));
        while i < self.habits.len()
            invariant
                i <= self.habits@.len(),
                list == self@.habits,
                p == (|h: HabitModel| score(h.hours, hour) > 0),
                habit_refs(busy@) == list.take(i as int).filter(p),
                key_views(keys@) == habit_refs(busy@).map_values(|h: HabitModel| heat_key(h, hour)),
            decreases self.habits.len() - i,
        {
            let h = &self.habits[i];
            assert(list[i as int] == h@);
            proof {
                lemma_filter_next(list, p, i as int);
            }
            let heat: u64 = h.heat(hour);
            if heat > 0 {
                let ghost had = habit_refs(busy@);
                let ghost had_keys = key_views(keys@);
                let mut key: Vec<u64> = Vec::new();
                key.push(u64::MAX - heat);
                key.push(u64::MAX - h.total as u64);
                assert(key@ =~= heat_key(h@, hour));
                busy.push(h);
                assert(habit_refs(busy@) =~= had.push(h@));
                keys.push(key);
                assert(key_views(keys@) =~= had_keys.push(heat_key(h@, hour)));
                assert(habit_refs(busy@).map_values(|h: HabitModel| heat_key(h, hour)) =~= had.map_values(
                    |h: HabitModel| heat_key(h, hour),
                ).push(heat_key(h@, hour)));
            }
            i += 1;
        }
        assert(list.take(i as int) == list);
        let ghost found = habit_refs(busy@);
        let order = order_of(&keys);
        let mut r: Vec<&Habit> = Vec::new();
        let mut k: usize = 0;
        while k < order.len() && k < limit
            invariant
                k <= order@.len(),
                k <= limit,
                found == habit_refs(busy@),
                order@.len() == found.len(),
                forall|j: int| 0 <= j < order@.len() ==> (#[trigger] order@[j]) < found.len(),
                habit_refs(r@) == arranged(found, order@).take(k as int),
            decreases order.len() - k,
        {
            assert(order@[k as int] < found.len());
            let ghost had = habit_refs(r@);
            let h = busy[order[k]];
            assert(found[order@[k as int] as int] == h@);
            r.push(h);
            assert(habit_refs(r@) =~= had.push(h@));
            assert(arranged(found, order@).take(k + 1) =~= arranged(found, order@).take(k as int).push(
                arranged(found, order@)[k as int],
            ));
            k += 1;
        }
        assert(arranged(found, order@).take(k as int) =~= first_few(arranged(found, order@), limit as int));
        r
    }

    /// The queries of all habits by the hour of the day.
    pub fn hour_histogram(&self) -> (r: [u32; 24])
        ensures
            forall|h: int| 0 <= h < 24 ==> (#[trigger] r@[h]) == capped(hour_sum(self@.habits, h)),
    {
        let ghost list = self@.habits;
        let mut totals: [u32; 24] = [0; 24];
        let mut i: usize = 0;
        while i < self.habits.len()
            invariant
                i <= self.habits@.len(),
                list == self@.habits,
                forall|h: int|
                    0 <= h < 24 ==> (#[trigger] totals@[h]) == capped(hour_sum(list.take(i as int), h)),
            decreases self.habits.len() - i,
        {
            let hours = &self.habits[i].hours;
            assert(list[i as int].hours == hours@);
            assert(list.take(i + 1).drop_last() == list.take(i as int));
            let mut h: usize = 0;
            while h < 24 && h < hours.len()
                invariant
                    i < self.habits@.len(),
                    list == self@.habits,
                    hours == self.habits@[i as int].hours,
                    h <= 24,
                    h <= hours@.len(),
                    list[i as int].hours == hours@,
                    list.take(i + 1).drop_last() == list.take(i as int),
                    forall|k: int|
                        0 <= k < h ==> (#[trigger] totals@[k]) == capped(hour_sum(list.take(i + 1), k)),
                    forall|k: int|
                        h <= k < 24 ==> (#[trigger] totals@[k]) == capped(hour_sum(list.take(i as int), k)),
                decreases 24 - h,
            {
                let sum: u32 = totals[h];
                totals[h] = sum.saturating_add(hours[h]);
                h += 1;
            }
            i += 1;
        }
        assert(list.take(i as int) == list);
        totals
    }
}

// ─── the store ───

/// All users and the defaults.
pub struct Store {
    users: HashMap<i64, UserState>,
    settings: GlobalSettings,
    dirty: bool,
}

/// What a [`Store`] holds.
#[verifier::ext_equal]
pub struct StoreModel {
    pub users: Map<i64, UserStateModel>,
    pub settings: GlobalSettings,
    /// Something has changed since the last snapshot was handed out.
    pub dirty: bool,
}

/// What is kept of a user: nothing of an unknown one.
pub open spec fn user_of(users: Map<i64, UserStateModel>, user_id: i64) -> UserStateModel {
    if users.dom().contains(user_id) {
        users[user_id]
    } else {
        new_user()
    }
}

/// A user who is heard of at the time `now`.
pub open spec fn seen(user: UserStateModel, now: u64) -> UserStateModel {
    UserStateModel {
        first_seen: if user.first_seen == 0 {
            now
        } else {
            user.first_seen
        },
        last_seen: now,
        ..user
    }
}

/// The settings that apply to a user: their own, else the defaults.
pub open spec fn alerts_of(store: StoreModel, user_id: i64) -> AlertSettings {
    all_limited(
        match user_of(store.users, user_id).alerts {
            Some(own) => own,
            None => store.settings.defaults,
        },
    )
}

/// The store after a user was set to `user`.
pub open spec fn with_user(store: StoreModel, user_id: i64, user: UserStateModel) -> StoreModel {
    StoreModel { users: store.users.insert(user_id, user), dirty: true, ..store }
}

impl View for Store {
    type V = StoreModel;

    closed spec fn view(&self) -> StoreModel {
        StoreModel {
            users: self.users@.map_values(|u: UserState| u@),
            settings: self.settings,
            dirty: self.dirty,
        }
    }
}

impl Store {
    /// A store without users.
    pub fn new() -> (r: Store)
        ensures
            r@ == (StoreModel { users: Map::empty(), settings: default_settings(), dirty: false }),
    {
        broadcast use vstd::std_specs::hash::group_hash_axioms;

        let r = Store { users: HashMap::new(), settings: GlobalSettings::default(), dirty: false };
        assert(r@.users =~= Map::<i64, UserStateModel>::empty());
        r
    }
}

/// The pairs hold every user once.
pub open spec fn lists_users(users: Map<i64, UserStateModel>, list: Seq<(i64, UserState)>) -> bool {
    &&& forall|i: int|
        0 <= i < list.len() ==> users.dom().contains((#[trigger] list[i]).0) && users[list[i].0] == list[i].1@
    &&& forall|i: int, j: int| 0 <= i < j < list.len() ==> (#[trigger] list[i]).0 != (#[trigger] list[j]).0
    &&& forall|id: i64| #[trigger] users.dom().contains(id) ==> exists|i: int| 0 <= i < list.len() && (#[trigger] list[i]).0 == id
}

/// The pairs hold every watch once, with the user whose it is.
pub open spec fn lists_watches(users: Map<i64, UserStateModel>, list: Seq<(i64, WatchSpec)>) -> bool {
    &&& forall|i: int|
        0 <= i < list.len() ==> users.dom().contains((#[trigger] list[i]).0) && users[list[i].0].watch == Some(
            list[i].1@,
        )
    &&& forall|i: int, j: int| 0 <= i < j < list.len() ==> (#[trigger] list[i]).0 != (#[trigger] list[j]).0
    &&& forall|id: i64| #[trigger] users.dom().contains(id) && users[id].watch is Some ==> exists|i: int|
        0 <= i < list.len() && (#[trigger] list[i]).0 == id
}

impl Store {
    /// The store that a snapshot describes; its defaults are moved into their ranges. Of two records
    /// of one user the later one counts.
    pub fn restore(users: Vec<(i64, UserState)>, settings: GlobalSettings) -> (r: Store)
        ensures
            r@.settings == (GlobalSettings { defaults: all_limited(settings.defaults), ..settings }),
            !r@.dirty,
            r@.users == restored(users@),
    {
        broadcast use vstd::std_specs::hash::group_hash_axioms;

        let mut map: HashMap<i64, UserState> = HashMap::new();
        let ghost all = users@;
        let mut i: usize = 0;
        assert(map@.map_values(|u: UserState| u@) =~= restored(all.take(0)));
        while i < users.len()
            invariant
                i <= users@.len(),
                all == users@,
                map@.map_values(|u: UserState| u@) == restored(all.take(i as int)),
            decreases users.len() - i,
        {
            let ghost before = map@;
            map.insert(users[i].0, users[i].1.clone());
            assert(all.take(i + 1).drop_last() == all.take(i as int));
            assert(map@.map_values(|u: UserState| u@) =~= before.map_values(|u: UserState| u@).insert(
                all[i as int].0,
                all[i as int].1@,
            ));
            i += 1;
        }
        assert(all.take(i as int) == all);
        Store {
            users: map,
            settings: GlobalSettings { defaults: settings.defaults.clamped(), ..settings },
            dirty: false,
        }
    }

    /// How many users there are.
    pub fn user_count(&self) -> (r: usize)
        ensures
            r == self@.users.dom().len(),
    {
        broadcast use vstd::std_specs::hash::group_hash_axioms;

        assert(self@.users.dom() =~= self.users@.dom());
        self.users.len()
    }

    /// What is kept of a user: nothing of an unknown one.
    pub fn get(&self, user_id: i64) -> (r: UserState)
        ensures
            r@ == user_of(self@.users, user_id),
    {
        broadcast use vstd::std_specs::hash::group_hash_axioms;

        match self.users.get(&user_id) {
            Some(user) => user.clone(),
            None => UserState::default(),
        }
    }

    /// Whether there is a record of the user.
    pub fn has_user(&self, user_id: i64) -> (r: bool)
        ensures
            r == self@.users.dom().contains(user_id),
    {
        broadcast use vstd::std_specs::hash::group_hash_axioms;

        self.users.contains_key(&user_id)
    }

    fn ids(&self) -> (r: Vec<i64>)
        ensures
            r@.no_duplicates(),
            forall|id: i64| #[trigger] r@.contains(id) <==> self@.users.dom().contains(id),
    {
        broadcast use vstd::std_specs::hash::group_hash_axioms;

        let mut r: Vec<i64> = Vec::new();
        let ghost all = vstd::std_specs::hash::spec_keys_iter(&self.users).remaining();
        for id in it: self.users.keys()
            invariant
                it.seq() == all,
                r@.len() == it.index(),
                forall|i: int| 0 <= i < r@.len() ==> #[trigger] r@[i] == *all[i],
        {
            r.push(*id);
        }
        proof {
            assert(r@ =~= all.unref());
            assert(all.unref().to_set() == self.users@.dom());
            assert forall|id: i64| #[trigger] r@.contains(id) <==> self@.users.dom().contains(id) by {
                assert(r@.to_set().contains(id) == r@.contains(id));
                assert(self@.users.dom().contains(id) == self.users@.dom().contains(id));
            }
        }
        r
    }

    /// All users, the latest heard of first.
    pub fn all_users(&self) -> (r: Vec<(i64, UserState)>)
        ensures
            lists_users(self@.users, r@),
            forall|i: int, j: int|
                0 <= i < j < r@.len() ==> (#[trigger] r@[i]).1@.last_seen >= (#[trigger] r@[j]).1@.last_seen,
    {
        broadcast use vstd::std_specs::hash::group_hash_axioms;

        let ids = self.ids();
        let ghost users = self@.users;
        let mut keys: Vec<Vec<u64>> = Vec::new();
        let mut i: usize = 0;
        while i < ids.len()
            invariant
                i <= ids@.len(),
                users == self@.users,
                forall|id: i64| #[trigger] ids@.contains(id) <==> users.dom().contains(id),
                keys@.len() == i,
                forall|k: int|
                    0 <= k < i ==> (#[trigger] keys@[k])@ == seq![(u64::MAX - users[ids@[k]].last_seen) as u64],
            decreases ids.len() - i,
        {
            assert(ids@.contains(ids@[i as int]));
            let mut key: Vec<u64> = Vec::new();
            key.push(u64::MAX - self.get(ids[i]).last_seen);
            assert(key@ =~= seq![(u64::MAX - users[ids@[i as int]].last_seen) as u64]);
            keys.push(key);
            i += 1;
        }
        let order = order_of(&keys);
        let ghost ks = key_views(keys@);
        let mut r: Vec<(i64, UserState)> = Vec::new();
        let mut k: usize = 0;
        while k < order.len()
            invariant
                k <= order@.len(),
                users == self@.users,
                order@.len() == ids@.len(),
                forall|j: int| 0 <= j < order@.len() ==> (#[trigger] order@[j]) < ids@.len(),
                forall|id: i64| #[trigger] ids@.contains(id) <==> users.dom().contains(id),
                r@.len() == k,
                forall|j: int|
                    0 <= j < k ==> (#[trigger] r@[j]).0 == ids@[order@[j] as int] && users.dom().contains(r@[j].0)
                        && r@[j].1@ == users[r@[j].0],
            decreases order.len() - k,
        {
            assert(order@[k as int] < ids@.len());
            let id: i64 = ids[order[k]];
            assert(ids@.contains(id));
            r.push((id, self.get(id)));
            k += 1;
        }
        proof {
            assert(crate::sort::is_stable_order(ks, order@));
            assert forall|a: int, b: int| 0 <= a < b < r@.len() implies (#[trigger] r@[a]).0 != (
            #[trigger] r@[b]).0 && r@[a].1@.last_seen >= r@[b].1@.last_seen by {
                let x = order@[a] as int;
                let y = order@[b] as int;
                assert(crate::sort::goes_before(ks, x, y));
                crate::sort::lemma_lex_irreflexive(ks[x]);
                assert(ks[x] == keys@[x]@);
                assert(ks[y] == keys@[y]@);
                assert(x != y);
                assert(ids@[x] != ids@[y]);
                assert(ks[x].drop_first().len() == 0 && ks[y].drop_first().len() == 0);
            }
            assert forall|id: i64| #[trigger] users.dom().contains(id) implies exists|i: int|
                0 <= i < r@.len() && (#[trigger] r@[i]).0 == id by {
                assert(ids@.contains(id));
                let x = choose|x: int| 0 <= x < ids@.len() && ids@[x] == id;
                assert(order@.contains(x as usize));
                let j = choose|j: int| 0 <= j < order@.len() && order@[j] == x as usize;
                assert(r@[j].0 == id);
            }
        }
        r
    }

    /// Forgets a user; false if there was no record.
    pub fn remove(&mut self, user_id: i64) -> (r: bool)
        ensures
            r == old(self)@.users.dom().contains(user_id),
            final(self)@ == (StoreModel {
                users: old(self)@.users.remove(user_id),
                dirty: old(self)@.dirty || r,
                ..old(self)@
            }),
    {
        broadcast use vstd::std_specs::hash::group_hash_axioms;

        let ghost before = self.users@;
        let removed = self.users.remove(&user_id).is_some();
        assert(self@.users =~= before.map_values(|u: UserState| u@).remove(user_id));
        if removed {
            self.dirty = true;
        }
        removed
    }

    /// The defaults.
    pub fn settings(&self) -> (r: GlobalSettings)
        ensures
            r == self@.settings,
    {
        self.settings
    }

    /// Changes the defaults; values out of range are moved into it.
    pub fn set_settings(&mut self, settings: GlobalSettings)
        ensures
            final(self)@ == (StoreModel {
                settings: GlobalSettings { defaults: all_limited(settings.defaults), ..settings },
                dirty: true,
                ..old(self)@
            }),
    {
        self.settings = GlobalSettings { defaults: settings.defaults.clamped(), ..settings };
        self.dirty = true;
    }

    /// Changes the defaults by `edit`; values out of range are moved into it.
    pub fn update_settings<R, F: FnOnce(&mut GlobalSettings) -> R>(&mut self, edit: F) -> (r: R)
        requires
            forall|s: &mut GlobalSettings| call_requires(edit, (s,)),
        ensures
            exists|s: &mut GlobalSettings|
                {
                    &&& *s == old(self)@.settings
                    &&& #[trigger] call_ensures(edit, (s,), r)
                    &&& final(self)@ == (StoreModel {
                        settings: GlobalSettings { defaults: all_limited(final(s).defaults), ..*final(s) },
                        dirty: true,
                        ..old(self)@
                    })
                },
    {
        let mut settings = self.settings;
        let s = &mut settings;
        let ghost s0 = s;
        let r = edit(s);
        self.set_settings(settings);
        r
    }

    /// The settings that apply to a user: their own, else the defaults, each within its range.
    pub fn alerts_for(&self, user_id: i64) -> (r: AlertSettings)
        ensures
            r == alerts_of(self@, user_id),
            in_limits(r),
    {
        match self.get(user_id).alerts {
            Some(own) => own.clamped(),
            None => self.settings.defaults.clamped(),
        }
    }

    /// The watches under way, in no particular order.
    pub fn active_watches(&self) -> (r: Vec<(i64, WatchSpec)>)
        ensures
            lists_watches(self@.users, r@),
    {
        broadcast use vstd::std_specs::hash::group_hash_axioms;

        let ids = self.ids();
        let ghost users = self@.users;
        let mut r: Vec<(i64, WatchSpec)> = Vec::new();
        let mut i: usize = 0;
        while i < ids.len()
            invariant
                i <= ids@.len(),
                users == self@.users,
                ids@.no_duplicates(),
                forall|id: i64| #[trigger] ids@.contains(id) <==> users.dom().contains(id),
                forall|j: int|
                    0 <= j < r@.len() ==> users.dom().contains((#[trigger] r@[j]).0) && users[r@[j].0].watch == Some(
                        r@[j].1@,
                    ) && exists|k: int| 0 <= k < i && ids@[k] == r@[j].0,
                forall|j: int, k: int| 0 <= j < k < r@.len() ==> (#[trigger] r@[j]).0 != (#[trigger] r@[k]).0,
                forall|k: int|
                    0 <= k < i && users[#[trigger] ids@[k]].watch is Some ==> exists|j: int|
                        0 <= j < r@.len() && (#[trigger] r@[j]).0 == ids@[k],
            decreases ids.len() - i,
        {
            let id: i64 = ids[i];
            assert(ids@.contains(id));
            let ghost before = r@;
            match self.get(id).watch {
                Some(watch) => {
                    r.push((id, watch));
                    assert forall|k: int|
                        0 <= k < i + 1 && users[#[trigger] ids@[k]].watch is Some implies exists|j: int|
                        0 <= j < r@.len() && (#[trigger] r@[j]).0 == ids@[k] by {
                        if k < i {
                            let j = choose|j: int| 0 <= j < before.len() && (#[trigger] before[j]).0 == ids@[k];
                            assert(r@[j].0 == ids@[k]);
                        } else {
                            assert(r@[before.len() as int].0 == ids@[k]);
                        }
                    }
                },
                None => {},
            }
            i += 1;
        }
        proof {
            assert forall|id: i64| #[trigger] users.dom().contains(id) && users[id].watch is Some implies exists|
                i: int,
            | 0 <= i < r@.len() && (#[trigger] r@[i]).0 == id by {
                assert(ids@.contains(id));
                let x = choose|x: int| 0 <= x < ids@.len() && ids@[x] == id;
            }
        }
        r
    }

    /// Puts a user's record in place of the one there is.
    pub fn put(&mut self, user_id: i64, user: UserState)
        ensures
            final(self)@ == with_user(old(self)@, user_id, user@),
    {
        broadcast use vstd::std_specs::hash::group_hash_axioms;

        let ghost before = self.users@;
        self.users.insert(user_id, user);
        self.dirty = true;
        assert(self@.users =~= before.map_values(|u: UserState| u@).insert(user_id, user@));
    }

    /// The record of a user who is heard of at the time `now`.
    pub fn touched(&self, user_id: i64, now: u64) -> (r: UserState)
        ensures
            r@ == seen(user_of(self@.users, user_id), now),
    {
        let mut user = self.get(user_id);
        if user.first_seen == 0 {
            user.first_seen = now;
        }
        user.last_seen = now;
        user
    }

    /// Changes the record of a user at the time `now` by `edit`.
    pub fn update_at<R, F: FnOnce(&mut UserState) -> R>(&mut self, user_id: i64, now: u64, edit: F) -> (r: R)
        requires
            forall|s: &mut UserState| call_requires(edit, (s,)),
        ensures
            exists|s: &mut UserState|
                {
                    &&& s@ == seen(user_of(old(self)@.users, user_id), now)
                    &&& #[trigger] call_ensures(edit, (s,), r)
                    &&& final(self)@ == with_user(old(self)@, user_id, final(s)@)
                },
    {
        let mut user = self.touched(user_id, now);
        let s = &mut user;
        let ghost s0 = s;
        let r = edit(s);
        self.put(user_id, user);
        r
    }

    /// Changes the record of a user by `edit`.
    pub fn update<R, F: FnOnce(&mut UserState) -> R>(&mut self, user_id: i64, edit: F) -> (r: R)
        requires
            forall|s: &mut UserState| call_requires(edit, (s,)),
        ensures
            exists|now: u64, s: &mut UserState|
                {
                    &&& s@ == #[trigger] seen(user_of(old(self)@.users, user_id), now)
                    &&& #[trigger] call_ensures(edit, (s,), r)
                    &&& final(self)@ == with_user(old(self)@, user_id, final(s)@)
                },
    {
        let now: u64 = now_secs();
        self.update_at(user_id, now, edit)
    }

    /// A snapshot to be written to disk, where something has changed since the last one.
    pub fn begin_flush(&mut self) -> (r: Option<(Vec<(i64, UserState)>, GlobalSettings)>)
        ensures
            r is Some <==> old(self)@.dirty,
            final(self)@ == (StoreModel { dirty: false, ..old(self)@ }),
            match r {
                Some((users, settings)) => lists_users(old(self)@.users, users@) && settings == old(self)@.settings,
                None => true,
            },
    {
        if !self.dirty {
            return None;
        }
        self.dirty = false;
        let users = self.all_users();
        Some((users, self.settings))
    }

    /// The snapshot could not be put in its place: it is due again.
    pub fn flush_failed(&mut self)
        ensures
            final(self)@ == (StoreModel { dirty: true, ..old(self)@ }),
    {
        self.dirty = true;
    }
}

/// Takes over users and defaults that were kept elsewhere, where there is no user yet: how many users
/// were handed over. Where there is one, everything stays as it is.
pub fn import_users(store: &mut Store, users: Vec<(i64, UserState)>, settings: GlobalSettings) -> (r: usize)
    ensures
        old(store)@.users.dom() != Set::<i64>::empty() ==> r == 0 && final(store)@ == old(store)@,
        old(store)@.users.dom() == Set::<i64>::empty() ==> r == users@.len() && final(store)@ == (StoreModel {
            users: restored(users@),
            settings: GlobalSettings { defaults: all_limited(settings.defaults), ..settings },
            dirty: true,
        }),
{
    let ids = store.ids();
    if ids.len() > 0 {
        assert(ids@.contains(ids@[0]));
        return 0;
    }
    assert(store@.users.dom() =~= Set::<i64>::empty()) by {
        assert forall|id: i64| !store@.users.dom().contains(id) by {
            assert(!ids@.contains(id));
        }
    }
    let n: usize = users.len();
    *store = Store::restore(users, settings);
    store.dirty = true;
    n
}

/// The users that a list of records describes: of two records of one user the later one counts.
pub open spec fn restored(list: Seq<(i64, UserState)>) -> Map<i64, UserStateModel>
    decreases list.len(),
{
    if list.len() == 0 {
        Map::empty()
    } else {
        restored(list.drop_last()).insert(list.last().0, list.last().1@)
    }
}

proof fn lemma_restored(users: Map<i64, UserStateModel>, list: Seq<(i64, UserState)>)
    requires
        forall|i: int|
            0 <= i < list.len() ==> users.dom().contains((#[trigger] list[i]).0) && users[list[i].0] == list[i].1@,
    ensures
        forall|id: i64|
            #[trigger] restored(list).dom().contains(id) ==> users.dom().contains(id) && restored(list)[id]
                == users[id],
        forall|i: int| 0 <= i < list.len() ==> restored(list).dom().contains((#[trigger] list[i]).0),
    decreases list.len(),
{
    if list.len() > 0 {
        let front = list.drop_last();
        assert forall|i: int| 0 <= i < front.len() implies users.dom().contains((#[trigger] front[i]).0)
            && users[front[i].0] == front[i].1@ by {
            assert(front[i] == list[i]);
        }
        lemma_restored(users, front);
        assert(list[list.len() - 1] == list.last());
        assert forall|id: i64| #[trigger] restored(list).dom().contains(id) implies users.dom().contains(id)
            && restored(list)[id] == users[id] by {
            if id != list.last().0 {
                assert(restored(front).dom().contains(id));
            }
        }
        assert forall|i: int| 0 <= i < list.len() implies restored(list).dom().contains((#[trigger] list[i]).0) by {
            if i < front.len() {
                assert(front[i] == list[i]);
            }
        }
    }
}

/// A store that is put together from a snapshot has the users that the snapshot was taken of.
pub proof fn law_snapshot_restores(users: Map<i64, UserStateModel>, list: Seq<(i64, UserState)>)
    requires
        lists_users(users, list),
    ensures
        restored(list) == users,
{
    lemma_restored(users, list);
    assert forall|id: i64| users.dom().contains(id) implies restored(list).dom().contains(id) by {
        let i = choose|i: int| 0 <= i < list.len() && (#[trigger] list[i]).0 == id;
        assert(restored(list).dom().contains(list[i].0));
    }
    assert(restored(list).dom() =~= users.dom());
    assert(restored(list) =~= users);
}

/// A user's own settings count; where there are none, the defaults do.
pub proof fn law_own_settings_override(store: StoreModel, user_id: i64)
    ensures
        store.users.dom().contains(user_id) && store.users[user_id].alerts is Some ==> alerts_of(store, user_id)
            == all_limited(store.users[user_id].alerts->0),
        !(store.users.dom().contains(user_id) && store.users[user_id].alerts is Some) ==> alerts_of(store, user_id)
            == all_limited(store.settings.defaults),
{
}

// ─── what habits and favourites are for ───

/// What is suggested for an hour are the lines that are looked up most around it: each of them is looked up
/// then at all, none stands behind one that is looked up less, more queries in all come first where they are
/// looked up equally much, and whatever is left out is not looked up more than what is in.
pub proof fn law_suggestions_are_the_busiest(habits: Seq<HabitModel>, hour: u32, limit: int)
    requires
        habits.len() <= usize::MAX,
        limit >= 0,
    ensures
        ({
            let r = suggested(habits, hour, limit);
            &&& r.len() <= limit
            &&& forall|i: int| 0 <= i < r.len() ==> habits.contains(#[trigger] r[i]) && score(r[i].hours, hour) > 0
            &&& forall|i: int, j: int|
                0 <= i < j < r.len() ==> score((#[trigger] r[i]).hours, hour) >= score((#[trigger] r[j]).hours, hour) && (score(
                    r[i].hours,
                    hour,
                ) == score(r[j].hours, hour) ==> r[i].total >= r[j].total)
            &&& forall|k: int, i: int|
                0 <= k < habits.len() && score((#[trigger] habits[k]).hours, hour) > 0 && !r.contains(habits[k]) && 0 <= i < r.len()
                    ==> score((#[trigger] r[i]).hours, hour) >= score(habits[k].hours, hour)
            &&& forall|k: int|
                0 <= k < habits.len() && score((#[trigger] habits[k]).hours, hour) > 0 && !r.contains(habits[k]) ==> r.len() == limit
        }),
{
    let p = |h: HabitModel| score(h.hours, hour) > 0;
    let busy = habits.filter(p);
    habits.lemma_filter_len(p);
    let keys = busy.map_values(|h: HabitModel| heat_key(h, hour));
    let order = stable_order(keys);
    let all = arranged(busy, order);
    let r = suggested(habits, hour, limit);
    lemma_arranged(busy, keys);
    assert forall|i: int| 0 <= i < all.len() implies habits.contains(#[trigger] all[i]) && score(all[i].hours, hour) > 0 by {
        assert(all[i] == busy[order[i] as int]);
        assert(busy.contains(all[i]));
        lemma_filter_has(habits, p, all[i]);
    }
    assert forall|i: int, j: int| 0 <= i < j < all.len() implies score((#[trigger] all[i]).hours, hour) >= score(
        (#[trigger] all[j]).hours,
        hour,
    ) && (score(all[i].hours, hour) == score(all[j].hours, hour) ==> all[i].total >= all[j].total) by {
        let (a, b) = (order[i] as int, order[j] as int);
        assert(all[i] == busy[a] && all[j] == busy[b]);
        assert(keys[a] == heat_key(busy[a], hour) && keys[b] == heat_key(busy[b], hour));
        lemma_lex_two(keys[b], keys[a]);
    }
    assert forall|k: int| 0 <= k < habits.len() && score((#[trigger] habits[k]).hours, hour) > 0 implies exists|i: int|
        0 <= i < all.len() && #[trigger] all[i] == habits[k] by {
        assert(p(habits[k]));
        assert(habits.contains(habits[k]));
        lemma_filter_has(habits, p, habits[k]);
        let at = choose|at: int| 0 <= at < busy.len() && busy[at] == habits[k];
        assert(order.contains(at as usize));
        let i = choose|i: int| 0 <= i < order.len() && order[i] == at as usize;
        assert(all[i] == habits[k]);
    }
    assert forall|i: int| 0 <= i < r.len() implies #[trigger] r[i] == all[i] by {}
    assert forall|k: int, i: int|
        0 <= k < habits.len() && score((#[trigger] habits[k]).hours, hour) > 0 && !r.contains(habits[k]) && 0 <= i < r.len() implies score(
        (#[trigger] r[i]).hours,
        hour,
    ) >= score(habits[k].hours, hour) by {
        let at = choose|at: int| 0 <= at < all.len() && #[trigger] all[at] == habits[k];
        if at < r.len() {
            assert(r[at] == habits[k]);
        }
        assert(r[i] == all[i]);
        assert(score(all[i].hours, hour) >= score(all[at].hours, hour));
    }
    assert forall|k: int| 0 <= k < habits.len() && score((#[trigger] habits[k]).hours, hour) > 0 && !r.contains(habits[k]) implies r.len()
        == limit by {
        let at = choose|at: int| 0 <= at < all.len() && #[trigger] all[at] == habits[k];
        if at < r.len() {
            assert(r[at] == habits[k]);
        }
    }
}

/// The lines looked up most come first, the latest first where they were looked up equally often; whatever is
/// left out was not looked up more often than what is in.
pub proof fn law_most_queried_come_first(habits: Seq<HabitModel>, limit: int)
    requires
        habits.len() <= usize::MAX,
        limit >= 0,
    ensures
        ({
            let r = most_queried(habits, limit);
            &&& r.len() == if limit < habits.len() {
                limit
            } else {
                habits.len() as int
            }
            &&& forall|i: int| 0 <= i < r.len() ==> habits.contains(#[trigger] r[i])
            &&& forall|i: int, j: int|
                0 <= i < j < r.len() ==> (#[trigger] r[i]).total >= (#[trigger] r[j]).total && (r[i].total == r[j].total ==> r[i].last_at
                    >= r[j].last_at)
            &&& forall|k: int, i: int|
                0 <= k < habits.len() && !r.contains(#[trigger] habits[k]) && 0 <= i < r.len() ==> (#[trigger] r[i]).total
                    >= habits[k].total
        }),
{
    let keys = habits.map_values(|h: HabitModel| total_key(h));
    let order = stable_order(keys);
    let all = arranged(habits, order);
    let r = most_queried(habits, limit);
    lemma_arranged(habits, keys);
    assert forall|i: int, j: int| 0 <= i < j < all.len() implies (#[trigger] all[i]).total >= (#[trigger] all[j]).total && (
    all[i].total == all[j].total ==> all[i].last_at >= all[j].last_at) by {
        let (a, b) = (order[i] as int, order[j] as int);
        assert(all[i] == habits[a] && all[j] == habits[b]);
        assert(keys[a] == total_key(habits[a]) && keys[b] == total_key(habits[b]));
        lemma_lex_two(keys[b], keys[a]);
    }
    assert forall|i: int| 0 <= i < r.len() implies #[trigger] r[i] == all[i] && habits.contains(r[i]) by {
        assert(all[i] == habits[order[i] as int]);
    }
    assert forall|k: int, i: int| 0 <= k < habits.len() && !r.contains(#[trigger] habits[k]) && 0 <= i < r.len() implies (
    #[trigger] r[i]).total >= habits[k].total by {
        assert(order.contains(k as usize));
        let at = choose|at: int| 0 <= at < order.len() && order[at] == k as usize;
        assert(all[at] == habits[k]);
        if at < r.len() {
            assert(r[at] == habits[k]);
        }
        assert(r[i] == all[i]);
        assert(all[i].total >= all[at].total);
    }
}

/// One more query in an hour makes the line three points busier at that hour, one point an hour before and
/// after it, also over midnight, and no busier at any other hour.
pub proof fn law_query_makes_its_hour_busier(hours: Seq<u32>, at: u32, hour: u32)
    requires
        hours.len() == 24,
        at < 24,
        hour < 24,
        hours[at as int] < u32::MAX,
    ensures
        score(counted(hours, slot(at)), hour) == score(hours, hour) + if hour == at {
            3int
        } else if (hour + 1) % 24 == at || (at + 1) % 24 == hour {
            1
        } else {
            0
        },
{
    let after = counted(hours, slot(at));
    assert(after =~= hours.update(at as int, (hours[at as int] + 1) as u32));
    assert((hour - 1) % 24 == if hour == 0 {
        23int
    } else {
        hour - 1
    });
    assert((hour + 1) % 24 == if hour == 23 {
        0int
    } else {
        hour + 1
    });
}

/// A line that is not looked up at an hour nor next to it is not busy then.
pub proof fn law_quiet_hours_score_nothing(hours: Seq<u32>, hour: u32)
    requires
        hours.len() == 24,
        hour < 24,
        hours[hour as int] == 0,
        hours[(hour + 1) % 24] == 0,
        hours[(hour + 23) % 24] == 0,
    ensures
        score(hours, hour) == 0,
{
    assert((hour - 1) % 24 == (hour + 23) % 24);
}

/// A query is counted once: for the user, for the line at the stop in its hour, and for the favourite that
/// it is of. Everything else of the user stays.
pub proof fn law_query_is_counted(
    user: UserStateModel,
    service: Seq<char>,
    line_name: Seq<char>,
    direction: Seq<char>,
    station_name: Seq<char>,
    order: u32,
    hour: u32,
    now: u64,
    i: int,
)
    requires
        hour < 24,
        0 <= i < user.habits.len(),
        user.habits[i].key == habit_key_of(service, direction, order),
        forall|k: int| 0 <= k < i ==> (#[trigger] user.habits[k]).key != habit_key_of(service, direction, order),
        user.habits[i].hours.len() == 24,
    ensures
        ({
            let after = queried(user, service, line_name, direction, station_name, order, hour, now);
            let (old_one, new_one) = (user.habits[i], after.habits[i]);
            &&& user.queries < u32::MAX ==> after.queries == user.queries + 1
            &&& after.last_seen == now
            &&& after.habits.len() == user.habits.len()
            &&& old_one.total < u32::MAX ==> new_one.total == old_one.total + 1
            &&& new_one.last_at == now && new_one.line_name == line_name && new_one.station_name == station_name
            &&& new_one.key == old_one.key && new_one.service == old_one.service && new_one.direction == old_one.direction
                && new_one.order == old_one.order
            &&& new_one.hours.len() == 24
            &&& old_one.hours[hour as int] < u32::MAX ==> new_one.hours[hour as int] == old_one.hours[hour as int] + 1
            &&& forall|h: int| 0 <= h < 24 && h != hour ==> #[trigger] new_one.hours[h] == old_one.hours[h]
            &&& forall|k: int| 0 <= k < user.habits.len() && k != i ==> #[trigger] after.habits[k] == user.habits[k]
            &&& after.favorites.len() == user.favorites.len()
            &&& forall|k: int|
                0 <= k < user.favorites.len() && (#[trigger] after.favorites[k]) != user.favorites[k] ==> is_trip(
                    user.favorites[k],
                    service,
                    direction,
                    order,
                )
            &&& after.service == user.service && after.watch == user.watch && after.alerts == user.alerts && after.banned
                == user.banned && after.first_seen == user.first_seen && after.pending == user.pending
        }),
{
    let key = habit_key_of(service, direction, order);
    lemma_first_where(user.habits, |h: HabitModel| h.key == key, i);
    lemma_first_where_is(user.favorites, |f: FavoriteModel| is_trip(f, service, direction, order));
}

/// The first query of a line at a stop makes it a habit, with one query in its hour.
pub proof fn law_first_query_makes_a_habit(
    user: UserStateModel,
    service: Seq<char>,
    line_name: Seq<char>,
    direction: Seq<char>,
    station_name: Seq<char>,
    order: u32,
    hour: u32,
    now: u64,
)
    requires
        hour < 24,
        forall|k: int| 0 <= k < user.habits.len() ==> (#[trigger] user.habits[k]).key != habit_key_of(service, direction, order),
    ensures
        ({
            let after = queried(user, service, line_name, direction, station_name, order, hour, now);
            let new_one = after.habits.last();
            &&& after.habits.len() == user.habits.len() + 1
            &&& forall|k: int| 0 <= k < user.habits.len() ==> #[trigger] after.habits[k] == user.habits[k]
            &&& new_one.service == service && new_one.line_name == line_name && new_one.direction == direction
                && new_one.station_name == station_name && new_one.order == order && new_one.total == 1 && new_one.last_at == now
            &&& new_one.hours.len() == 24 && new_one.hours[hour as int] == 1
            &&& forall|h: int| 0 <= h < 24 && h != hour ==> #[trigger] new_one.hours[h] == 0
        }),
{
    let key = habit_key_of(service, direction, order);
    lemma_first_where(user.habits, |h: HabitModel| h.key == key, user.habits.len() as int);
}

/// A query of a favourite is a hit for it, at the time of the query.
pub proof fn law_query_hits_its_favorite(
    favorites: Seq<FavoriteModel>,
    service: Seq<char>,
    direction: Seq<char>,
    order: u32,
    now: u64,
    i: int,
)
    requires
        0 <= i < favorites.len(),
        favorites[i].service == service && favorites[i].direction == direction && favorites[i].order == order,
        trips_differ(favorites),
        favorites[i].hits < u32::MAX,
    ensures
        ({
            let after = favorites_after(favorites, service, direction, order, now);
            &&& after.len() == favorites.len()
            &&& after[i].hits == favorites[i].hits + 1 && after[i].last_at == now && after[i].added_at == favorites[i].added_at
            &&& after[i].line_name == favorites[i].line_name && after[i].station_name == favorites[i].station_name
            &&& forall|k: int| 0 <= k < favorites.len() && k != i ==> #[trigger] after[k] == favorites[k]
        }),
{
    let p = |f: FavoriteModel| is_trip(f, service, direction, order);
    assert forall|k: int| 0 <= k < i implies !p(#[trigger] favorites[k]) by {
        assert(!is_trip(favorites[i], favorites[k].service, favorites[k].direction, favorites[k].order));
    }
    lemma_first_where(favorites, p, i);
}

/// The button of a favourite adds or removes that line at that stop: it is one afterwards exactly where it was
/// none before, and all other favourites stay.
pub proof fn law_toggle_changes_one_favorite(
    favorites: Seq<FavoriteModel>,
    candidate: FavoriteModel,
    now: u64,
    other: FavoriteModel,
)
    requires
        trips_differ(favorites),
    ensures
        ({
            let after = toggled(favorites, candidate, now);
            let was = exists|k: int|
                0 <= k < favorites.len() && (#[trigger] favorites[k]).service == candidate.service && favorites[k].direction
                    == candidate.direction && favorites[k].order == candidate.order;
            let is = exists|k: int|
                0 <= k < after.len() && (#[trigger] after[k]).service == candidate.service && after[k].direction
                    == candidate.direction && after[k].order == candidate.order;
            &&& is == !was
            &&& was ==> after.len() == favorites.len() - 1
            &&& !was ==> after.len() == favorites.len() + 1 && after.last() == (FavoriteModel { added_at: now, ..candidate })
            &&& !is_trip(other, candidate.service, candidate.direction, candidate.order) ==> favorites.contains(other)
                == after.contains(other)
        }),
{
    let p = |f: FavoriteModel| is_trip(f, candidate.service, candidate.direction, candidate.order);
    lemma_first_where_is(favorites, p);
    let at = first_where(favorites, p);
    let after = toggled(favorites, candidate, now);
    if at < favorites.len() {
        assert(p(favorites[at]));
        assert forall|k: int| 0 <= k < after.len() implies !p(#[trigger] after[k]) by {
            let j = if k < at { k } else { k + 1 };
            assert(after[k] == favorites[j]);
            if k < at {
                assert(!p(favorites[k]));
            } else {
                assert(!is_trip(favorites[j], favorites[at].service, favorites[at].direction, favorites[at].order));
            }
        }
        if favorites.contains(other) && !p(other) {
            let k = choose|k: int| 0 <= k < favorites.len() && favorites[k] == other;
            if k < at {
                assert(after[k] == other);
            } else {
                assert(after[k - 1] == other);
            }
        }
        if after.contains(other) {
            let k = choose|k: int| 0 <= k < after.len() && after[k] == other;
            assert(favorites[if k < at { k } else { k + 1 }] == other);
        }
    } else {
        assert forall|k: int| 0 <= k < favorites.len() implies !p(#[trigger] favorites[k]) by {}
        assert(p(after[favorites.len() as int]));
        assert(after[favorites.len() as int] == after.last());
        if favorites.contains(other) {
            let k = choose|k: int| 0 <= k < favorites.len() && favorites[k] == other;
            assert(after[k] == other);
        }
        if after.contains(other) && !p(other) {
            let k = choose|k: int| 0 <= k < after.len() && after[k] == other;
            assert(favorites[k] == other);
        }
    }
}

/// Queries of a line at different stops are different habits.
pub proof fn law_stops_are_told_apart(service: Seq<char>, direction: Seq<char>, order: u32, other: u32)
    ensures
        habit_key_of(service, direction, order) == habit_key_of(service, direction, other) ==> order == other,
{
    let front = service + "|"@ + direction + "|"@;
    let (a, b) = (habit_key_of(service, direction, order), habit_key_of(service, direction, other));
    if a == b {
        assert(a.skip(front.len() as int) =~= dec(order as nat));
        assert(b.skip(front.len() as int) =~= dec(other as nat));
        crate::text::lemma_read_of_dec(order as nat, u32::MAX as nat);
        crate::text::lemma_read_of_dec(other as nat, u32::MAX as nat);
    }
}

/// The queries of an hour are added up over the habits.
pub proof fn law_histogram_adds_up(habits: Seq<HabitModel>, habit: HabitModel, hour: int)
    requires
        0 <= hour < habit.hours.len(),
    ensures
        hour_sum(habits.push(habit), hour) == hour_sum(habits, hour) + habit.hours[hour],
        hour_sum(Seq::<HabitModel>::empty(), hour) == 0,
{
    assert(habits.push(habit).drop_last() =~= habits);
}

// ─── what the settings and the clock mean ───

/// A value out of range is moved to the value in the range that is nearest to it, and one in the range stays.
pub proof fn law_limited_is_nearest(field: AlertField, value: int, other: int)
    requires
        field_range(field).0 <= other <= field_range(field).1,
    ensures
        field_range(field).0 <= limited(field, value) <= field_range(field).1,
        value >= 0 && field_range(field).0 <= value <= field_range(field).1 ==> limited(field, value) == value,
        vstd::math::abs(limited(field, value) - value) <= vstd::math::abs(other - value),
{
}

/// The ranges of the settings, and what applies where nobody has changed any.
pub proof fn law_settings_have_their_ranges(a: AlertSettings)
    requires
        in_limits(a),
    ensures
        5 <= a.poll_secs <= 120,
        a.alert_stations <= 10,
        a.alert_distance_m <= 5000,
        15 <= a.repeat_secs <= 600,
        5 <= a.max_minutes <= 240,
        in_limits(default_alerts()),
        default_alerts().poll_secs == 10 && default_alerts().alert_stations == 1 && default_alerts().alert_distance_m == 500
            && default_alerts().repeat_secs == 60 && default_alerts().max_minutes == 60,
{
    assert(setting(a, AlertField::Poll) == a.poll_secs);
    assert(setting(a, AlertField::Stations) == a.alert_stations);
    assert(setting(a, AlertField::Distance) == a.alert_distance_m);
    assert(setting(a, AlertField::Repeat) == a.repeat_secs);
    assert(setting(a, AlertField::MaxMinutes) == a.max_minutes);
}

/// Each setting is the field of its name, and takes any value within its range.
pub proof fn law_settings_are_set_by_name(a: AlertSettings, value: int)
    ensures
        5 <= value <= 120 ==> with_setting(a, AlertField::Poll, value) == (AlertSettings { poll_secs: value as u64, ..a }),
        0 <= value <= 10 ==> with_setting(a, AlertField::Stations, value) == (AlertSettings { alert_stations: value as u32, ..a }),
        0 <= value <= 5000 ==> with_setting(a, AlertField::Distance, value) == (AlertSettings { alert_distance_m: value as u32, ..a }),
        15 <= value <= 600 ==> with_setting(a, AlertField::Repeat, value) == (AlertSettings { repeat_secs: value as u64, ..a }),
        5 <= value <= 240 ==> with_setting(a, AlertField::MaxMinutes, value) == (AlertSettings { max_minutes: value as u64, ..a }),
        setting(a, AlertField::Poll) == a.poll_secs,
        setting(a, AlertField::Stations) == a.alert_stations,
        setting(a, AlertField::Distance) == a.alert_distance_m,
        setting(a, AlertField::Repeat) == a.repeat_secs,
        setting(a, AlertField::MaxMinutes) == a.max_minutes,
{
}

/// A press of ➕ raises a setting by its step and a press of ➖ lowers it by as much, within the range.
pub proof fn law_steps_raise_and_lower(a: AlertSettings, field: AlertField)
    requires
        in_limits(a),
    ensures
        setting(a, field) + field_step(field) <= field_range(field).1 ==> limited(field, stepped(a, field, 1)) == setting(a, field)
            + field_step(field),
        setting(a, field) - field_step(field) >= field_range(field).0 ==> limited(field, stepped(a, field, -1i64)) == setting(a, field)
            - field_step(field),
        setting(a, field) + field_step(field) > field_range(field).1 ==> limited(field, stepped(a, field, 1)) == field_range(field).1,
        setting(a, field) - field_step(field) < field_range(field).0 ==> limited(field, stepped(a, field, -1i64)) == field_range(
            field,
        ).0,
        field_step(field) == match field {
            AlertField::Poll => 5u64,
            AlertField::Stations => 1,
            AlertField::Distance => 100,
            AlertField::Repeat => 15,
            AlertField::MaxMinutes => 10,
        },
{
    assert(1 * field_step(field) == field_step(field));
    assert(-1 * field_step(field) == -field_step(field));
}

/// The time of day is what is left of the seconds since midnight in the zone: hours, minutes and seconds that
/// add up to it, with whole days between.
pub proof fn law_clock_shows_the_local_time(unix_secs: u64, tz: i64, hours: nat, minutes: nat, seconds: nat, days: int)
    requires
        unix_secs < 0x8000_0000_0000_0000,
        hours < 24 && minutes < 60 && seconds < 60,
        unix_secs + tz * 3600 == days * 86_400 + hours * 3600 + minutes * 60 + seconds,
    ensures
        hour_at(unix_secs, tz) == hours,
        clock_at(unix_secs, tz) == dec2(hours) + ":"@ + dec2(minutes),
        clock_secs_at(unix_secs, tz) == dec2(hours) + ":"@ + dec2(minutes) + ":"@ + dec2(seconds),
{
    let rest = hours * 3600 + minutes * 60 + seconds;
    assert((days * 86_400 + rest) % 86_400 == rest) by (nonlinear_arith)
        requires
            0 <= rest < 86_400,
    ;
}

/// A line at a stop is called by the name of the line and that of the stop, in this order, wherever it is kept: as a
/// favourite, as a habit, as a watch.
pub proof fn law_trips_are_called_by_line_and_stop(
    user: UserStateModel,
    service: Seq<char>,
    line_name: Seq<char>,
    direction: Seq<char>,
    station_name: Seq<char>,
    order: u32,
    hour: u32,
    now: u64,
    w: WatchSpecModel,
)
    ensures
        at_stop(line_name, station_name) == line_name + " @ "@ + station_name,
        ({
            let after = queried(user, service, line_name, direction, station_name, order, hour, now).habits;
            exists|i: int|
                0 <= i < after.len() && (#[trigger] after[i]).key == habit_key_of(service, direction, order) && after[i].label == line_name
                    + " @ "@ + station_name
        }),
        w.target_bus is Some ==> watch_label(w) == w.line_name + " @ "@ + w.station_name + " · 车辆 "@ + w.target_bus->0,
        w.target_bus is None ==> watch_label(w) == w.line_name + " @ "@ + w.station_name + " · 最近一班"@,
{
    let key = habit_key_of(service, direction, order);
    lemma_first_where_is(user.habits, |h: HabitModel| h.key == key);
    let at = habit_index(user.habits, key);
    let after = queried(user, service, line_name, direction, station_name, order, hour, now).habits;
    assert(after[at].key == key && after[at].label == line_name + " @ "@ + station_name);
}

/// A user is heard of for the first time once, and for the last time whenever they are; nothing else changes by it.
pub proof fn law_users_are_seen(user: UserStateModel, now: u64, later: u64)
    requires
        now > 0,
    ensures
        user.first_seen == 0 ==> seen(user, now).first_seen == now,
        user.first_seen != 0 ==> seen(user, now).first_seen == user.first_seen,
        seen(seen(user, now), later).first_seen == seen(user, now).first_seen,
        seen(user, now).last_seen == now,
        seen(user, now).favorites == user.favorites && seen(user, now).habits == user.habits && seen(user, now).queries == user.queries
            && seen(user, now).watch == user.watch && seen(user, now).alerts == user.alerts && seen(user, now).banned == user.banned
            && seen(user, now).service == user.service && seen(user, now).pending == user.pending,
{
}

/// What is put for a user is what is had of them, and what is kept of all others stays.
pub proof fn law_put_user_is_had_back(store: StoreModel, user_id: i64, user: UserStateModel, other: i64)
    ensures
        user_of(with_user(store, user_id, user).users, user_id) == user,
        other != user_id ==> user_of(with_user(store, user_id, user).users, other) == user_of(store.users, other),
        with_user(store, user_id, user).settings == store.settings,
        with_user(store, user_id, user).dirty,
        !store.users.dom().contains(other) ==> user_of(store.users, other) == new_user(),
        new_user().favorites.len() == 0 && new_user().habits.len() == 0 && new_user().watch is None && !new_user().banned && new_user().alerts
            is None && new_user().queries == 0,
{
}

} // verus!
