//! The tables of the database: what a user becomes in them, and what is read out of them.
//!
//! The rows are plain values; the statements that read and write them stand with the connection.
use crate::models::{Double, GeoPoint};
use crate::seqs::{lemma_filter_next, lemma_filter_ordered, rearranged, same_items};
use crate::store::{
    all_limited, as_signed, default_alerts, in_limits, law_limited_settings_stay, law_pending_reads_back, pending_name, pending_named, signed,
    AlertSettings, Favorite, FavoriteModel, GlobalSettings, Habit, HabitModel, Pending, UserState, UserStateModel, WatchSpec, WatchSpecModel,
};
use crate::text::{copy, dec, decimal, join, joined, opt_view, same, views};
use vstd::prelude::*;

verus! {

// ─── rows ───

/// A row of the table of users.
#[derive(Debug)]
pub struct UserRow {
    pub id: i64,
    pub display_name: String,
    pub username: Option<String>,
    pub service: Option<String>,
    pub city_label: Option<String>,
    pub queries: u32,
    pub first_seen: i64,
    pub last_seen: i64,
    pub last_lat: Option<Double>,
    pub last_lng: Option<Double>,
    pub pending: String,
    pub banned: i64,
    /// None: the user has no settings of their own.
    pub alert_poll_secs: Option<i64>,
    pub alert_stations: Option<i64>,
    pub alert_distance_m: Option<i64>,
    pub alert_repeat_secs: Option<i64>,
    pub alert_max_minutes: Option<i64>,
}

/// What a [`UserRow`] holds.
#[verifier::ext_equal]
pub struct UserRowModel {
    pub id: i64,
    pub display_name: Seq<char>,
    pub username: Option<Seq<char>>,
    pub service: Option<Seq<char>>,
    pub city_label: Option<Seq<char>>,
    pub queries: u32,
    pub first_seen: i64,
    pub last_seen: i64,
    pub last_lat: Option<Double>,
    pub last_lng: Option<Double>,
    pub pending: Seq<char>,
    pub banned: i64,
    pub alert_poll_secs: Option<i64>,
    pub alert_stations: Option<i64>,
    pub alert_distance_m: Option<i64>,
    pub alert_repeat_secs: Option<i64>,
    pub alert_max_minutes: Option<i64>,
}

impl View for UserRow {
    type V = UserRowModel;

    open spec fn view(&self) -> UserRowModel {
        UserRowModel {
            id: self.id,
            display_name: self.display_name@,
            username: opt_view(self.username),
            service: opt_view(self.service),
            city_label: opt_view(self.city_label),
            queries: self.queries,
            first_seen: self.first_seen,
            last_seen: self.last_seen,
            last_lat: self.last_lat,
            last_lng: self.last_lng,
            pending: self.pending@,
            banned: self.banned,
            alert_poll_secs: self.alert_poll_secs,
            alert_stations: self.alert_stations,
            alert_distance_m: self.alert_distance_m,
            alert_repeat_secs: self.alert_repeat_secs,
            alert_max_minutes: self.alert_max_minutes,
        }
    }
}

impl UserRow {
    /// What a list of [`UserRow`] holds.
    pub open spec fn models(list: Seq<UserRow>) -> Seq<UserRowModel> {
        list.map_values(|x: UserRow| x@)
    }
}

/// A row of the table of favourites.
#[derive(Debug)]
pub struct FavoriteRow {
    pub user_id: i64,
    pub service: String,
    pub direction: String,
    pub stop_order: u32,
    pub line_name: String,
    pub station_name: String,
    pub city_label: String,
    pub added_at: i64,
    pub hits: u32,
    pub last_at: i64,
}

/// What a [`FavoriteRow`] holds.
#[verifier::ext_equal]
pub struct FavoriteRowModel {
    pub user_id: i64,
    pub service: Seq<char>,
    pub direction: Seq<char>,
    pub stop_order: u32,
    pub line_name: Seq<char>,
    pub station_name: Seq<char>,
    pub city_label: Seq<char>,
    pub added_at: i64,
    pub hits: u32,
    pub last_at: i64,
}

impl View for FavoriteRow {
    type V = FavoriteRowModel;

    open spec fn view(&self) -> FavoriteRowModel {
        FavoriteRowModel {
            user_id: self.user_id,
            service: self.service@,
            direction: self.direction@,
            stop_order: self.stop_order,
            line_name: self.line_name@,
            station_name: self.station_name@,
            city_label: self.city_label@,
            added_at: self.added_at,
            hits: self.hits,
            last_at: self.last_at,
        }
    }
}

impl FavoriteRow {
    /// What a list of [`FavoriteRow`] holds.
    pub open spec fn models(list: Seq<FavoriteRow>) -> Seq<FavoriteRowModel> {
        list.map_values(|x: FavoriteRow| x@)
    }
}

/// A row of the table of habits.
#[derive(Debug)]
pub struct HabitRow {
    pub user_id: i64,
    pub key: String,
    pub label: String,
    pub service: String,
    pub line_name: String,
    pub direction: String,
    pub station_name: String,
    pub stop_order: u32,
    /// How often in each hour of the day, as a JSON array.
    pub hours: String,
    pub total: u32,
    pub last_at: i64,
}

/// What a [`HabitRow`] holds.
#[verifier::ext_equal]
pub struct HabitRowModel {
    pub user_id: i64,
    pub key: Seq<char>,
    pub label: Seq<char>,
    pub service: Seq<char>,
    pub line_name: Seq<char>,
    pub direction: Seq<char>,
    pub station_name: Seq<char>,
    pub stop_order: u32,
    pub hours: Seq<char>,
    pub total: u32,
    pub last_at: i64,
}

impl View for HabitRow {
    type V = HabitRowModel;

    open spec fn view(&self) -> HabitRowModel {
        HabitRowModel {
            user_id: self.user_id,
            key: self.key@,
            label: self.label@,
            service: self.service@,
            line_name: self.line_name@,
            direction: self.direction@,
            station_name: self.station_name@,
            stop_order: self.stop_order,
            hours: self.hours@,
            total: self.total,
            last_at: self.last_at,
        }
    }
}

impl HabitRow {
    /// What a list of [`HabitRow`] holds.
    pub open spec fn models(list: Seq<HabitRow>) -> Seq<HabitRowModel> {
        list.map_values(|x: HabitRow| x@)
    }
}

/// A row of the table of watches.
#[derive(Debug)]
pub struct WatchRow {
    pub user_id: i64,
    pub service: String,
    pub city_label: String,
    pub line_name: String,
    pub direction: String,
    pub station_name: String,
    pub stop_order: u32,
    pub chat_id: i64,
    pub card_message_id: i64,
    pub target_bus: Option<String>,
    pub started_at: i64,
}

/// What a [`WatchRow`] holds.
#[verifier::ext_equal]
pub struct WatchRowModel {
    pub user_id: i64,
    pub service: Seq<char>,
    pub city_label: Seq<char>,
    pub line_name: Seq<char>,
    pub direction: Seq<char>,
    pub station_name: Seq<char>,
    pub stop_order: u32,
    pub chat_id: i64,
    pub card_message_id: i64,
    pub target_bus: Option<Seq<char>>,
    pub started_at: i64,
}

impl View for WatchRow {
    type V = WatchRowModel;

    open spec fn view(&self) -> WatchRowModel {
        WatchRowModel {
            user_id: self.user_id,
            service: self.service@,
            city_label: self.city_label@,
            line_name: self.line_name@,
            direction: self.direction@,
            station_name: self.station_name@,
            stop_order: self.stop_order,
            chat_id: self.chat_id,
            card_message_id: self.card_message_id,
            target_bus: opt_view(self.target_bus),
            started_at: self.started_at,
        }
    }
}

impl WatchRow {
    /// What a list of [`WatchRow`] holds.
    pub open spec fn models(list: Seq<WatchRow>) -> Seq<WatchRowModel> {
        list.map_values(|x: WatchRow| x@)
    }
}

/// Everything that is written of a user.
#[derive(Debug)]
pub struct UserRows {
    pub user: UserRow,
    pub favorites: Vec<FavoriteRow>,
    pub habits: Vec<HabitRow>,
    pub watch: Option<WatchRow>,
}

/// What a [`UserRows`] holds.
#[verifier::ext_equal]
pub struct UserRowsModel {
    pub user: UserRowModel,
    pub favorites: Seq<FavoriteRowModel>,
    pub habits: Seq<HabitRowModel>,
    pub watch: Option<WatchRowModel>,
}

impl View for UserRows {
    type V = UserRowsModel;

    open spec fn view(&self) -> UserRowsModel {
        UserRowsModel {
            user: self.user@,
            favorites: FavoriteRow::models(self.favorites@),
            habits: HabitRow::models(self.habits@),
            watch: (match self.watch { Some(x) => Some(x@), None => None }),
        }
    }
}

// ─── numbers ───

/// A number of the database, which knows signed ones only; one below zero is read as zero.
pub open spec fn read_back(v: i64) -> u64 {
    if v < 0 {
        0
    } else {
        v as u64
    }
}

fn unsigned(v: i64) -> (r: u64)
    ensures
        r == read_back(v),
{
    if v < 0 {
        0
    } else {
        v as u64
    }
}

/// The low 32 bits of a number of the database; `otherwise` stands in for a missing one.
pub open spec fn read_small(v: Option<i64>, otherwise: i64) -> u32 {
    (read_back(
        match v {
            Some(v) => v,
            None => otherwise,
        },
    ) % 0x1_0000_0000) as u32
}

fn small_number(v: Option<i64>, otherwise: i64) -> (r: u32)
    ensures
        r == read_small(v, otherwise),
{
    let v: i64 = match v {
        Some(v) => v,
        None => otherwise,
    };
    (unsigned(v) % 0x1_0000_0000) as u32
}

/// A number of the database; `otherwise` stands in for a missing one.
pub open spec fn read_large(v: Option<i64>, otherwise: i64) -> u64 {
    read_back(
        match v {
            Some(v) => v,
            None => otherwise,
        },
    )
}

fn large_number(v: Option<i64>, otherwise: i64) -> (r: u64)
    ensures
        r == read_large(v, otherwise),
{
    let v: i64 = match v {
        Some(v) => v,
        None => otherwise,
    };
    unsigned(v)
}

/// The digits of each number.
pub open spec fn digits_of(list: Seq<u32>) -> Seq<Seq<char>> {
    list.map_values(|n: u32| dec(n as nat))
}

/// A list of numbers as a JSON array.
pub open spec fn numbers_text(list: Seq<u32>) -> Seq<char> {
    "["@ + joined(digits_of(list), ","@) + "]"@
}

fn write_numbers(list: &Vec<u32>) -> (r: String)
    ensures
        r@ == numbers_text(list@),
{
    let ghost wanted = digits_of(list@);
    let mut parts: Vec<String> = Vec::new();
    let mut i: usize = 0;
    assert(views(parts@) =~= wanted.take(0));
    while i < list.len()
        invariant
            i <= list@.len(),
            wanted == digits_of(list@),
            views(parts@) == wanted.take(i as int),
        decreases list.len() - i,
    {
        let ghost had = views(parts@);
        let part = decimal(list[i] as u64);
        assert(part@ == wanted[i as int]);
        parts.push(part);
        assert(views(parts@) =~= had.push(wanted[i as int]));
        assert(wanted.take(i + 1) =~= wanted.take(i as int).push(wanted[i as int]));
        i += 1;
    }
    assert(wanted.take(i as int) =~= wanted);
    let mut r = copy("[");
    r.append(join(&parts, ",").as_str());
    r.append("]");
    r
}

/// The numbers that `serde_json` reads out of a JSON array.
pub uninterp spec fn json_numbers(text: Seq<char>) -> Option<Seq<u32>>;

/// `serde_json::from_str` into a list of numbers: what it reads is named, and an array that is written
/// as [`numbers_text`] says gives back its numbers.
#[verifier::external_body]
fn parse_numbers(text: &str) -> (r: Option<Vec<u32>>)
    ensures
        (match r {
            Some(list) => Some(list@),
            None => None,
        }) == json_numbers(text@),
        forall|list: Seq<u32>| text@ == #[trigger] numbers_text(list) ==> r is Some && r->0@ == list,
{
    serde_json::from_str(text).ok()
}

/// The hours of a habit; none are known where the array cannot be read.
pub open spec fn hours_of(numbers: Option<Seq<u32>>) -> Seq<u32> {
    match numbers {
        Some(list) => list,
        None => Seq::new(24, |i: int| 0u32),
    }
}

/// The hours of a habit, from what the array held.
pub fn hours_or_none(numbers: Option<Vec<u32>>) -> (r: Vec<u32>)
    ensures
        r@ == hours_of(
            match numbers {
                Some(list) => Some(list@),
                None => None,
            },
        ),
{
    match numbers {
        Some(list) => list,
        None => {
            let mut none: Vec<u32> = Vec::new();
            none.resize(24, 0);
            assert(none@ =~= Seq::new(24, |i: int| 0u32));
            none
        },
    }
}

// ─── writing ───

/// The row of a user.
pub open spec fn user_row(id: i64, user: UserStateModel) -> UserRowModel {
    UserRowModel {
        id: id,
        display_name: user.display_name,
        username: user.username,
        service: user.service,
        city_label: user.city_label,
        queries: user.queries,
        first_seen: signed(user.first_seen) as i64,
        last_seen: signed(user.last_seen) as i64,
        last_lat: match user.last_location {
            Some(at) => Some(at.lat),
            None => None,
        },
        last_lng: match user.last_location {
            Some(at) => Some(at.lng),
            None => None,
        },
        pending: pending_name(user.pending),
        banned: if user.banned {
            1
        } else {
            0
        },
        alert_poll_secs: match user.alerts {
            Some(a) => Some(signed(a.poll_secs) as i64),
            None => None,
        },
        alert_stations: match user.alerts {
            Some(a) => Some(a.alert_stations as i64),
            None => None,
        },
        alert_distance_m: match user.alerts {
            Some(a) => Some(a.alert_distance_m as i64),
            None => None,
        },
        alert_repeat_secs: match user.alerts {
            Some(a) => Some(signed(a.repeat_secs) as i64),
            None => None,
        },
        alert_max_minutes: match user.alerts {
            Some(a) => Some(signed(a.max_minutes) as i64),
            None => None,
        },
    }
}

fn write_user(id: i64, user: &UserState) -> (r: UserRow)
    ensures
        r@ == user_row(id, user@),
{
    let (lat, lng) = match user.last_location {
        Some(at) => (Some(at.lat), Some(at.lng)),
        None => (None, None),
    };
    let banned: i64 = if user.banned {
        1
    } else {
        0
    };
    let (poll, stations, distance, repeat, most) = match user.alerts {
        Some(a) => (
            Some(as_signed(a.poll_secs)),
            Some(a.alert_stations as i64),
            Some(a.alert_distance_m as i64),
            Some(as_signed(a.repeat_secs)),
            Some(as_signed(a.max_minutes)),
        ),
        None => (None, None, None, None, None),
    };
    UserRow {
        id: id,
        display_name: user.display_name.clone(),
        username: user.username.clone(),
        service: user.service.clone(),
        city_label: user.city_label.clone(),
        queries: user.queries,
        first_seen: as_signed(user.first_seen),
        last_seen: as_signed(user.last_seen),
        last_lat: lat,
        last_lng: lng,
        pending: copy(user.pending.as_str()),
        banned: banned,
        alert_poll_secs: poll,
        alert_stations: stations,
        alert_distance_m: distance,
        alert_repeat_secs: repeat,
        alert_max_minutes: most,
    }
}

/// The row of a favourite.
pub open spec fn favorite_row(f: FavoriteModel, id: i64) -> FavoriteRowModel {
    FavoriteRowModel {
        user_id: id,
        service: f.service,
        direction: f.direction,
        stop_order: f.order,
        line_name: f.line_name,
        station_name: f.station_name,
        city_label: f.city_label,
        added_at: signed(f.added_at) as i64,
        hits: f.hits,
        last_at: signed(f.last_at) as i64,
    }
}

fn write_favorite(f: &Favorite, id: i64) -> (r: FavoriteRow)
    ensures
        r@ == favorite_row(f@, id),
{
    FavoriteRow {
        user_id: id,
        service: f.service.clone(),
        direction: f.direction.clone(),
        stop_order: f.order,
        line_name: f.line_name.clone(),
        station_name: f.station_name.clone(),
        city_label: f.city_label.clone(),
        added_at: as_signed(f.added_at),
        hits: f.hits,
        last_at: as_signed(f.last_at),
    }
}

/// The row of a habit.
pub open spec fn habit_row(h: HabitModel, id: i64) -> HabitRowModel {
    HabitRowModel {
        user_id: id,
        key: h.key,
        label: h.label,
        service: h.service,
        line_name: h.line_name,
        direction: h.direction,
        station_name: h.station_name,
        stop_order: h.order,
        hours: numbers_text(h.hours),
        total: h.total,
        last_at: signed(h.last_at) as i64,
    }
}

fn write_habit(h: &Habit, id: i64) -> (r: HabitRow)
    ensures
        r@ == habit_row(h@, id),
{
    HabitRow {
        user_id: id,
        key: h.key.clone(),
        label: h.label.clone(),
        service: h.service.clone(),
        line_name: h.line_name.clone(),
        direction: h.direction.clone(),
        station_name: h.station_name.clone(),
        stop_order: h.order,
        hours: write_numbers(&h.hours),
        total: h.total,
        last_at: as_signed(h.last_at),
    }
}

/// The row of a watch.
pub open spec fn watch_row(w: WatchSpecModel, id: i64) -> WatchRowModel {
    WatchRowModel {
        user_id: id,
        service: w.service,
        city_label: w.city_label,
        line_name: w.line_name,
        direction: w.direction,
        station_name: w.station_name,
        stop_order: w.order,
        chat_id: w.chat_id,
        card_message_id: w.card_message_id,
        target_bus: w.target_bus,
        started_at: signed(w.started_at) as i64,
    }
}

fn write_watch(w: &WatchSpec, id: i64) -> (r: WatchRow)
    ensures
        r@ == watch_row(w@, id),
{
    WatchRow {
        user_id: id,
        service: w.service.clone(),
        city_label: w.city_label.clone(),
        line_name: w.line_name.clone(),
        direction: w.direction.clone(),
        station_name: w.station_name.clone(),
        stop_order: w.order,
        chat_id: w.chat_id,
        card_message_id: w.card_message_id,
        target_bus: w.target_bus.clone(),
        started_at: as_signed(w.started_at),
    }
}

/// The rows of the favourites.
pub open spec fn favorite_rows(list: Seq<FavoriteModel>, id: i64) -> Seq<FavoriteRowModel> {
    list.map_values(|x: FavoriteModel| favorite_row(x, id))
}

fn write_favorites(list: &Vec<Favorite>, id: i64) -> (r: Vec<FavoriteRow>)
    ensures
        FavoriteRow::models(r@) == favorite_rows(Favorite::models(list@), id),
{
    let ghost wanted = favorite_rows(Favorite::models(list@), id);
    let mut r: Vec<FavoriteRow> = Vec::new();
    let mut i: usize = 0;
    assert(FavoriteRow::models(r@) =~= wanted.take(0));
    while i < list.len()
        invariant
            i <= list@.len(),
            wanted == favorite_rows(Favorite::models(list@), id),
            FavoriteRow::models(r@) == wanted.take(i as int),
        decreases list.len() - i,
    {
        let ghost had = FavoriteRow::models(r@);
        assert(Favorite::models(list@)[i as int] == list@[i as int]@);
        let item = write_favorite(&list[i], id);
        assert(item@ == wanted[i as int]);
        r.push(item);
        assert(FavoriteRow::models(r@) =~= had.push(wanted[i as int]));
        assert(wanted.take(i + 1) =~= wanted.take(i as int).push(wanted[i as int]));
        i += 1;
    }
    assert(wanted.take(i as int) =~= wanted);
    r
}

/// The rows of the habits.
pub open spec fn habit_rows(list: Seq<HabitModel>, id: i64) -> Seq<HabitRowModel> {
    list.map_values(|x: HabitModel| habit_row(x, id))
}

fn write_habits(list: &Vec<Habit>, id: i64) -> (r: Vec<HabitRow>)
    ensures
        HabitRow::models(r@) == habit_rows(Habit::models(list@), id),
{
    let ghost wanted = habit_rows(Habit::models(list@), id);
    let mut r: Vec<HabitRow> = Vec::new();
    let mut i: usize = 0;
    assert(HabitRow::models(r@) =~= wanted.take(0));
    while i < list.len()
        invariant
            i <= list@.len(),
            wanted == habit_rows(Habit::models(list@), id),
            HabitRow::models(r@) == wanted.take(i as int),
        decreases list.len() - i,
    {
        let ghost had = HabitRow::models(r@);
        assert(Habit::models(list@)[i as int] == list@[i as int]@);
        let item = write_habit(&list[i], id);
        assert(item@ == wanted[i as int]);
        r.push(item);
        assert(HabitRow::models(r@) =~= had.push(wanted[i as int]));
        assert(wanted.take(i + 1) =~= wanted.take(i as int).push(wanted[i as int]));
        i += 1;
    }
    assert(wanted.take(i as int) =~= wanted);
    r
}

/// Everything that is written of a user.
pub open spec fn rows_of(id: i64, user: UserStateModel) -> UserRowsModel {
    UserRowsModel {
        user: user_row(id, user),
        favorites: favorite_rows(user.favorites, id),
        habits: habit_rows(user.habits, id),
        watch: match user.watch {
            Some(w) => Some(watch_row(w, id)),
            None => None,
        },
    }
}

/// The rows that take the place of those of a user: what is written in one go.
pub fn save_user(id: i64, user: &UserState) -> (r: UserRows)
    ensures
        r@ == rows_of(id, user@),
{
    let watch = match &user.watch {
        Some(w) => Some(write_watch(w, id)),
        None => None,
    };
    UserRows {
        user: write_user(id, user),
        favorites: write_favorites(&user.favorites, id),
        habits: write_habits(&user.habits, id),
        watch: watch,
    }
}

// ─── reading ───

/// The settings of a user: none where the column for the pause is empty.
pub open spec fn alerts_from(row: UserRowModel) -> Option<AlertSettings> {
    match row.alert_poll_secs {
        Some(poll) => Some(
            all_limited(
                AlertSettings {
                    poll_secs: read_back(poll),
                    alert_stations: read_small(row.alert_stations, 1),
                    alert_distance_m: read_small(row.alert_distance_m, 500),
                    repeat_secs: read_large(row.alert_repeat_secs, 60),
                    max_minutes: read_large(row.alert_max_minutes, 60),
                },
            ),
        ),
        None => None,
    }
}

fn read_alerts(row: &UserRow) -> (r: Option<AlertSettings>)
    ensures
        r == alerts_from(row@),
{
    match row.alert_poll_secs {
        Some(poll) => {
            let read = AlertSettings {
                poll_secs: unsigned(poll),
                alert_stations: small_number(row.alert_stations, 1),
                alert_distance_m: small_number(row.alert_distance_m, 500),
                repeat_secs: large_number(row.alert_repeat_secs, 60),
                max_minutes: large_number(row.alert_max_minutes, 60),
            };
            Some(read.clamped())
        },
        None => None,
    }
}

/// A favourite.
pub open spec fn favorite_from(row: FavoriteRowModel) -> FavoriteModel {
    FavoriteModel {
        service: row.service,
        city_label: row.city_label,
        line_name: row.line_name,
        direction: row.direction,
        station_name: row.station_name,
        order: row.stop_order,
        added_at: read_back(row.added_at),
        hits: row.hits,
        last_at: read_back(row.last_at),
    }
}

fn read_favorite(row: &FavoriteRow) -> (r: Favorite)
    ensures
        r@ == favorite_from(row@),
{
    Favorite {
        service: row.service.clone(),
        city_label: row.city_label.clone(),
        line_name: row.line_name.clone(),
        direction: row.direction.clone(),
        station_name: row.station_name.clone(),
        order: row.stop_order,
        added_at: unsigned(row.added_at),
        hits: row.hits,
        last_at: unsigned(row.last_at),
    }
}

/// A habit.
pub open spec fn habit_from(row: HabitRowModel) -> HabitModel {
    HabitModel {
        key: row.key,
        label: row.label,
        service: row.service,
        line_name: row.line_name,
        direction: row.direction,
        station_name: row.station_name,
        order: row.stop_order,
        hours: hours_of(json_numbers(row.hours)),
        total: row.total,
        last_at: read_back(row.last_at),
    }
}

/// The array in a row gives back the numbers that were written into it.
pub open spec fn hours_read_back(row: HabitRowModel) -> bool {
    forall|list: Seq<u32>| row.hours == #[trigger] numbers_text(list) ==> json_numbers(row.hours) == Some(list)
}

fn read_habit(row: &HabitRow) -> (r: Habit)
    ensures
        r@ == habit_from(row@),
        hours_read_back(row@),
{
    let numbers = parse_numbers(row.hours.as_str());
    Habit {
        key: row.key.clone(),
        label: row.label.clone(),
        service: row.service.clone(),
        line_name: row.line_name.clone(),
        direction: row.direction.clone(),
        station_name: row.station_name.clone(),
        order: row.stop_order,
        hours: hours_or_none(numbers),
        total: row.total,
        last_at: unsigned(row.last_at),
    }
}

/// A watch.
pub open spec fn watch_from(row: WatchRowModel) -> WatchSpecModel {
    WatchSpecModel {
        service: row.service,
        city_label: row.city_label,
        line_name: row.line_name,
        direction: row.direction,
        station_name: row.station_name,
        order: row.stop_order,
        chat_id: row.chat_id,
        card_message_id: row.card_message_id,
        target_bus: row.target_bus,
        started_at: read_back(row.started_at),
    }
}

fn read_watch(row: &WatchRow) -> (r: WatchSpec)
    ensures
        r@ == watch_from(row@),
{
    WatchSpec {
        service: row.service.clone(),
        city_label: row.city_label.clone(),
        line_name: row.line_name.clone(),
        direction: row.direction.clone(),
        station_name: row.station_name.clone(),
        order: row.stop_order,
        chat_id: row.chat_id,
        card_message_id: row.card_message_id,
        target_bus: row.target_bus.clone(),
        started_at: unsigned(row.started_at),
    }
}

/// The favourites of one user.
pub open spec fn favorite_of(id: i64) -> spec_fn(FavoriteRowModel) -> bool {
    |row: FavoriteRowModel| row.user_id == id
}

/// The habits of one user.
pub open spec fn habit_of(id: i64) -> spec_fn(HabitRowModel) -> bool {
    |row: HabitRowModel| row.user_id == id
}

/// The favourites of one user, in the order of their rows.
pub open spec fn favorites_from(rows: Seq<FavoriteRowModel>, id: i64) -> Seq<FavoriteModel> {
    rows.filter(favorite_of(id)).map_values(|row: FavoriteRowModel| favorite_from(row))
}

/// The habits of one user, in the order of their rows.
pub open spec fn habits_from(rows: Seq<HabitRowModel>, id: i64) -> Seq<HabitModel> {
    rows.filter(habit_of(id)).map_values(|row: HabitRowModel| habit_from(row))
}

/// The last watch of one user.
pub open spec fn watch_of(rows: Seq<WatchRowModel>, id: i64) -> Option<WatchSpecModel>
    decreases rows.len(),
{
    if rows.len() == 0 {
        None
    } else if rows.last().user_id == id {
        Some(watch_from(rows.last()))
    } else {
        watch_of(rows.drop_last(), id)
    }
}

fn read_favorites(rows: &Vec<FavoriteRow>, id: i64) -> (r: Vec<Favorite>)
    ensures
        Favorite::models(r@) == favorites_from(FavoriteRow::models(rows@), id),
{
    let ghost list = FavoriteRow::models(rows@);
    let mut r: Vec<Favorite> = Vec::new();
    let mut i: usize = 0;
    proof {
        reveal(Seq::filter);
        assert(list.take(0) =~= Seq::<FavoriteRowModel>::empty());
        assert(Favorite::models(r@) =~= favorites_from(list.take(0), id));
    }
    while i < rows.len()
        invariant
            i <= rows@.len(),
            list == FavoriteRow::models(rows@),
            Favorite::models(r@) == favorites_from(list.take(i as int), id),
        decreases rows.len() - i,
    {
        let ghost had = Favorite::models(r@);
        assert(list[i as int] == rows@[i as int]@);
        proof {
            lemma_filter_next(list, favorite_of(id), i as int);
        }
        if rows[i].user_id == id {
            let item = read_favorite(&rows[i]);
            r.push(item);
            assert(Favorite::models(r@) =~= had.push(favorite_from(list[i as int])));
            assert(favorites_from(list.take(i + 1), id) =~= had.push(favorite_from(list[i as int])));
        }
        i += 1;
    }
    assert(list.take(i as int) =~= list);
    r
}

fn read_habits(rows: &Vec<HabitRow>, id: i64) -> (r: Vec<Habit>)
    ensures
        Habit::models(r@) == habits_from(HabitRow::models(rows@), id),
        read_back_for(HabitRow::models(rows@), id),
{
    let ghost list = HabitRow::models(rows@);
    let mut r: Vec<Habit> = Vec::new();
    let mut i: usize = 0;
    proof {
        reveal(Seq::filter);
        assert(list.take(0) =~= Seq::<HabitRowModel>::empty());
        assert(Habit::models(r@) =~= habits_from(list.take(0), id));
    }
    while i < rows.len()
        invariant
            i <= rows@.len(),
            list == HabitRow::models(rows@),
            Habit::models(r@) == habits_from(list.take(i as int), id),
            forall|k: int| 0 <= k < i && list[k].user_id == id ==> hours_read_back(#[trigger] list[k]),
        decreases rows.len() - i,
    {
        let ghost had = Habit::models(r@);
        assert(list[i as int] == rows@[i as int]@);
        proof {
            lemma_filter_next(list, habit_of(id), i as int);
        }
        if rows[i].user_id == id {
            let item = read_habit(&rows[i]);
            r.push(item);
            assert(Habit::models(r@) =~= had.push(habit_from(list[i as int])));
            assert(habits_from(list.take(i + 1), id) =~= had.push(habit_from(list[i as int])));
        }
        i += 1;
    }
    assert(list.take(i as int) =~= list);
    r
}

/// The arrays of one user give back the numbers that were written into them.
pub open spec fn read_back_for(rows: Seq<HabitRowModel>, id: i64) -> bool {
    forall|k: int| 0 <= k < rows.len() && rows[k].user_id == id ==> hours_read_back(#[trigger] rows[k])
}

fn read_watch_of(rows: &Vec<WatchRow>, id: i64) -> (r: Option<WatchSpec>)
    ensures
        (match r {
            Some(w) => Some(w@),
            None => None,
        }) == watch_of(WatchRow::models(rows@), id),
{
    let ghost list = WatchRow::models(rows@);
    let mut i: usize = rows.len();
    assert(list.take(i as int) =~= list);
    while i > 0
        invariant
            i <= rows@.len(),
            list == WatchRow::models(rows@),
            watch_of(list, id) == watch_of(list.take(i as int), id),
        decreases i,
    {
        assert(list.take(i as int).drop_last() =~= list.take(i - 1));
        assert(list[i - 1] == rows@[i - 1]@);
        if rows[i - 1].user_id == id {
            return Some(read_watch(&rows[i - 1]));
        }
        i -= 1;
    }
    None
}

/// A user as the tables have it.
pub open spec fn user_from(
    row: UserRowModel,
    favorites: Seq<FavoriteRowModel>,
    habits: Seq<HabitRowModel>,
    watches: Seq<WatchRowModel>,
) -> UserStateModel {
    UserStateModel {
        service: row.service,
        city_label: row.city_label,
        favorites: favorites_from(favorites, row.id),
        habits: habits_from(habits, row.id),
        queries: row.queries,
        first_seen: read_back(row.first_seen),
        last_seen: read_back(row.last_seen),
        last_location: match (row.last_lat, row.last_lng) {
            (Some(lat), Some(lng)) => Some(GeoPoint { lat: lat, lng: lng }),
            _ => None,
        },
        pending: pending_named(row.pending),
        alerts: alerts_from(row),
        watch: watch_of(watches, row.id),
        banned: row.banned != 0,
        display_name: row.display_name,
        username: row.username,
    }
}

fn read_user(row: &UserRow, favorites: &Vec<FavoriteRow>, habits: &Vec<HabitRow>, watches: &Vec<WatchRow>) -> (r: UserState)
    ensures
        r@ == user_from(
            row@,
            FavoriteRow::models(favorites@),
            HabitRow::models(habits@),
            WatchRow::models(watches@),
        ),
        read_back_for(HabitRow::models(habits@), row@.id),
{
    let location = match (row.last_lat, row.last_lng) {
        (Some(lat), Some(lng)) => Some(GeoPoint { lat: lat, lng: lng }),
        _ => None,
    };
    UserState {
        service: row.service.clone(),
        city_label: row.city_label.clone(),
        favorites: read_favorites(favorites, row.id),
        habits: read_habits(habits, row.id),
        queries: row.queries,
        first_seen: unsigned(row.first_seen),
        last_seen: unsigned(row.last_seen),
        last_location: location,
        pending: Pending::from_str(row.pending.as_str()),
        alerts: read_alerts(row),
        watch: read_watch_of(watches, row.id),
        banned: row.banned != 0,
        display_name: row.display_name.clone(),
        username: row.username.clone(),
    }
}

/// The numbers of a user fit into the columns: none is beyond what a signed number holds.
pub open spec fn fits_columns(user: UserStateModel) -> bool {
    &&& user.first_seen <= i64::MAX && user.last_seen <= i64::MAX
    &&& forall|i: int|
        0 <= i < user.favorites.len() ==> (#[trigger] user.favorites[i]).added_at <= i64::MAX && user.favorites[i].last_at
            <= i64::MAX
    &&& forall|i: int| 0 <= i < user.habits.len() ==> (#[trigger] user.habits[i]).last_at <= i64::MAX
    &&& user.watch is Some ==> user.watch->0.started_at <= i64::MAX
    &&& match user.alerts {
        Some(a) => a.poll_secs <= i64::MAX && a.repeat_secs <= i64::MAX && a.max_minutes <= i64::MAX,
        None => true,
    }
}

/// The tables hold what was written of a user, beside whatever they hold of others. The favourites
/// come by the time at which they were added, as they are asked for; habits come in any order.
pub open spec fn holds(
    id: i64,
    user: UserStateModel,
    row: UserRowModel,
    favorites: Seq<FavoriteRowModel>,
    habits: Seq<HabitRowModel>,
    watches: Seq<WatchRowModel>,
) -> bool {
    let rows = rows_of(id, user);
    &&& row == rows.user
    &&& same_items(favorites.filter(favorite_of(id)), rows.favorites)
    &&& forall|j: int, k: int|
        0 <= j <= k < favorites.len() ==> (#[trigger] favorites[j]).added_at <= (#[trigger] favorites[k]).added_at
    &&& same_items(habits.filter(habit_of(id)), rows.habits)
    &&& match rows.watch {
        Some(w) => exists|k: int| 0 <= k < watches.len() && #[trigger] watches[k] == w,
        None => forall|k: int| 0 <= k < watches.len() ==> (#[trigger] watches[k]).user_id != id,
    }
    &&& forall|j: int, k: int|
        0 <= j < k < watches.len() ==> (#[trigger] watches[j]).user_id != (#[trigger] watches[k]).user_id
}

/// `read` is `user` again: its favourites by the time at which they were added, its habits in any
/// order, and its settings moved into their ranges.
pub open spec fn comes_back(user: UserStateModel, read: UserStateModel) -> bool {
    &&& read == (UserStateModel {
        favorites: read.favorites,
        habits: read.habits,
        alerts: match user.alerts {
            Some(a) => Some(all_limited(a)),
            None => None,
        },
        ..user
    })
    &&& same_items(read.favorites, user.favorites)
    &&& forall|j: int, k: int|
        0 <= j <= k < read.favorites.len() ==> (#[trigger] read.favorites[j]).added_at <= (#[trigger] read.favorites[k]).added_at
    &&& same_items(read.habits, user.habits)
}

proof fn lemma_watch_of(rows: Seq<WatchRowModel>, id: i64, at: int)
    requires
        forall|j: int, k: int| 0 <= j < k < rows.len() ==> (#[trigger] rows[j]).user_id != (#[trigger] rows[k]).user_id,
        -1 <= at < rows.len(),
        at >= 0 ==> rows[at].user_id == id,
        at < 0 ==> forall|k: int| 0 <= k < rows.len() ==> (#[trigger] rows[k]).user_id != id,
    ensures
        watch_of(rows, id) == if at >= 0 {
            Some(watch_from(rows[at]))
        } else {
            None
        },
    decreases rows.len(),
{
    if rows.len() > 0 && rows.last().user_id != id {
        lemma_watch_of(rows.drop_last(), id, at);
    }
}

proof fn lemma_favorite_reads_back(f: FavoriteModel, id: i64)
    requires
        f.added_at <= i64::MAX,
        f.last_at <= i64::MAX,
    ensures
        favorite_from(favorite_row(f, id)) == f,
        favorite_row(f, id).added_at == f.added_at,
{
}

proof fn lemma_favorites_come_back(id: i64, user: UserStateModel, favorites: Seq<FavoriteRowModel>)
    requires
        fits_columns(user),
        same_items(favorites.filter(favorite_of(id)), favorite_rows(user.favorites, id)),
        forall|j: int, k: int|
            0 <= j <= k < favorites.len() ==> (#[trigger] favorites[j]).added_at <= (#[trigger] favorites[k]).added_at,
    ensures
        ({
            let read = favorites_from(favorites, id);
            &&& same_items(read, user.favorites)
            &&& forall|j: int, k: int| 0 <= j <= k < read.len() ==> (#[trigger] read[j]).added_at <= (#[trigger] read[k]).added_at
            &&& favorites.filter(favorite_of(id)) == favorite_rows(user.favorites, id) ==> read == user.favorites
        }),
{
    let mine = favorites.filter(favorite_of(id));
    let saved = favorite_rows(user.favorites, id);
    let read = favorites_from(favorites, id);
    let key = |row: FavoriteRowModel| row.added_at as int;
    lemma_filter_ordered(favorites, favorite_of(id), key);
    let order = choose|order: Seq<int>| rearranged(mine, saved, order);
    assert forall|i: int| 0 <= i < read.len() implies read[i] == user.favorites[#[trigger] order[i]] && read[i].added_at
        == mine[i].added_at by {
        lemma_favorite_reads_back(user.favorites[order[i]], id);
        assert(saved[order[i]] == favorite_row(user.favorites[order[i]], id));
    }
    assert(rearranged(read, user.favorites, order));
    assert forall|j: int, k: int| 0 <= j <= k < read.len() implies (#[trigger] read[j]).added_at <= (
    #[trigger] read[k]).added_at by {
        assert(key(mine[j]) <= key(mine[k]));
        assert(read[j] == user.favorites[order[j]] && read[k] == user.favorites[order[k]]);
    }
    if mine == saved {
        assert forall|i: int| 0 <= i < read.len() implies #[trigger] read[i] == user.favorites[i] by {
            lemma_favorite_reads_back(user.favorites[i], id);
            assert(mine[i] == favorite_row(user.favorites[i], id));
        }
        assert(read =~= user.favorites);
    }
}

proof fn lemma_habit_reads_back(h: HabitModel, id: i64, habits: Seq<HabitRowModel>)
    requires
        h.last_at <= i64::MAX,
        read_back_for(habits, id),
        habits.filter(habit_of(id)).contains(habit_row(h, id)),
    ensures
        habit_from(habit_row(h, id)) == h,
{
    let row = habit_row(h, id);
    habits.lemma_filter_contains_rev(habit_of(id), row);
    let k = choose|k: int| 0 <= k < habits.len() && #[trigger] habits[k] == row;
    assert(hours_read_back(habits[k]));
    assert(numbers_text(h.hours) == row.hours);
}

proof fn lemma_habits_come_back(id: i64, user: UserStateModel, habits: Seq<HabitRowModel>)
    requires
        fits_columns(user),
        same_items(habits.filter(habit_of(id)), habit_rows(user.habits, id)),
        read_back_for(habits, id),
    ensures
        same_items(habits_from(habits, id), user.habits),
        habits.filter(habit_of(id)) == habit_rows(user.habits, id) ==> habits_from(habits, id) == user.habits,
{
    let mine = habits.filter(habit_of(id));
    let saved = habit_rows(user.habits, id);
    let read = habits_from(habits, id);
    let order = choose|order: Seq<int>| rearranged(mine, saved, order);
    assert forall|i: int| 0 <= i < read.len() implies read[i] == user.habits[#[trigger] order[i]] by {
        assert(mine[i] == habit_row(user.habits[order[i]], id));
        assert(mine.contains(mine[i]));
        lemma_habit_reads_back(user.habits[order[i]], id, habits);
    }
    assert(rearranged(read, user.habits, order));
    if mine == saved {
        assert forall|i: int| 0 <= i < read.len() implies #[trigger] read[i] == user.habits[i] by {
            assert(mine[i] == habit_row(user.habits[i], id));
            assert(mine.contains(mine[i]));
            lemma_habit_reads_back(user.habits[i], id, habits);
        }
        assert(read =~= user.habits);
    }
}

/// What was written of a user is read back, whatever the tables hold of others, where the numbers fit
/// the columns and the JSON arrays give back their numbers. Favourites and habits whose rows come as
/// they were written keep their order, and settings within their ranges stay as they are.
pub proof fn law_saved_user_is_loaded(
    id: i64,
    user: UserStateModel,
    row: UserRowModel,
    favorites: Seq<FavoriteRowModel>,
    habits: Seq<HabitRowModel>,
    watches: Seq<WatchRowModel>,
)
    requires
        fits_columns(user),
        holds(id, user, row, favorites, habits, watches),
        read_back_for(habits, id),
    ensures
        comes_back(user, user_from(row, favorites, habits, watches)),
        favorites.filter(favorite_of(id)) == rows_of(id, user).favorites ==> user_from(row, favorites, habits, watches).favorites
            == user.favorites,
        habits.filter(habit_of(id)) == rows_of(id, user).habits ==> user_from(row, favorites, habits, watches).habits == user.habits,
        user.alerts is Some && in_limits(user.alerts->0) ==> user_from(row, favorites, habits, watches).alerts == user.alerts,
{
    law_pending_reads_back(user.pending);
    lemma_favorites_come_back(id, user, favorites);
    lemma_habits_come_back(id, user, habits);
    match user.watch {
        Some(w) => {
            let k = choose|k: int| 0 <= k < watches.len() && #[trigger] watches[k] == watch_row(w, id);
            lemma_watch_of(watches, id, k);
        },
        None => {
            lemma_watch_of(watches, id, -1);
        },
    }
    match user.alerts {
        Some(a) => {
            law_limited_settings_stay(a);
            assert(alerts_from(row) == Some(all_limited(a)));
        },
        None => {},
    }
}

/// The rows of the table of watches that belong to a user.
pub open spec fn watch_row_of(id: i64) -> spec_fn(WatchRowModel) -> bool {
    |row: WatchRowModel| row.user_id == id
}

proof fn lemma_watch_of_own(rows: Seq<WatchRowModel>, id: i64)
    ensures
        ({
            let own = rows.filter(watch_row_of(id));
            watch_of(rows, id) == if own.len() == 0 {
                None
            } else {
                Some(watch_from(own.last()))
            }
        }),
    decreases rows.len(),
{
    reveal(Seq::filter);
    if rows.len() > 0 {
        lemma_watch_of_own(rows.drop_last(), id);
    }
}

/// What is read of a user depends on the rows of that user alone: whatever is written, changed or
/// removed of others, the user comes out the same.
pub proof fn law_rows_of_others_make_no_difference(
    row: UserRowModel,
    favorites: Seq<FavoriteRowModel>,
    habits: Seq<HabitRowModel>,
    watches: Seq<WatchRowModel>,
    other_favorites: Seq<FavoriteRowModel>,
    other_habits: Seq<HabitRowModel>,
    other_watches: Seq<WatchRowModel>,
)
    requires
        favorites.filter(favorite_of(row.id)) == other_favorites.filter(favorite_of(row.id)),
        habits.filter(habit_of(row.id)) == other_habits.filter(habit_of(row.id)),
        watches.filter(watch_row_of(row.id)) == other_watches.filter(watch_row_of(row.id)),
    ensures
        user_from(row, favorites, habits, watches) == user_from(row, other_favorites, other_habits, other_watches),
{
    lemma_watch_of_own(watches, row.id);
    lemma_watch_of_own(other_watches, row.id);
}

/// All users, in the order of their rows.
pub open spec fn loaded(
    users: Seq<UserRowModel>,
    favorites: Seq<FavoriteRowModel>,
    habits: Seq<HabitRowModel>,
    watches: Seq<WatchRowModel>,
) -> Seq<(i64, UserStateModel)> {
    users.map_values(|row: UserRowModel| (row.id, user_from(row, favorites, habits, watches)))
}

/// What a list of users holds.
pub open spec fn user_models(list: Seq<(i64, UserState)>) -> Seq<(i64, UserStateModel)> {
    list.map_values(|u: (i64, UserState)| (u.0, u.1@))
}

/// All users as the tables have them. A row of another table that belongs to no user is left aside. A
/// user whose rows are those that [`save_user`] gives comes back.
pub fn load_users(users: &Vec<UserRow>, favorites: &Vec<FavoriteRow>, habits: &Vec<HabitRow>, watches: &Vec<WatchRow>) -> (r: Vec<
    (i64, UserState),
>)
    ensures
        user_models(r@) == loaded(
            UserRow::models(users@),
            FavoriteRow::models(favorites@),
            HabitRow::models(habits@),
            WatchRow::models(watches@),
        ),
        forall|i: int, user: UserStateModel|
            0 <= i < users@.len() && fits_columns(user) && #[trigger] holds(
                users@[i]@.id,
                user,
                users@[i]@,
                FavoriteRow::models(favorites@),
                HabitRow::models(habits@),
                WatchRow::models(watches@),
            ) ==> comes_back(user, r@[i].1@),
{
    let ghost rows = UserRow::models(users@);
    let ghost f = FavoriteRow::models(favorites@);
    let ghost h = HabitRow::models(habits@);
    let ghost w = WatchRow::models(watches@);
    let ghost wanted = loaded(rows, f, h, w);
    let mut r: Vec<(i64, UserState)> = Vec::new();
    let mut i: usize = 0;
    assert(user_models(r@) =~= wanted.take(0));
    while i < users.len()
        invariant
            i <= users@.len(),
            rows == UserRow::models(users@),
            f == FavoriteRow::models(favorites@),
            h == HabitRow::models(habits@),
            w == WatchRow::models(watches@),
            wanted == loaded(rows, f, h, w),
            user_models(r@) == wanted.take(i as int),
            forall|k: int| 0 <= k < i ==> read_back_for(h, (#[trigger] users@[k])@.id),
        decreases users.len() - i,
    {
        let ghost had = user_models(r@);
        assert(rows[i as int] == users@[i as int]@);
        let user = read_user(&users[i], favorites, habits, watches);
        r.push((users[i].id, user));
        assert(user_models(r@) =~= had.push(wanted[i as int]));
        assert(wanted.take(i + 1) =~= wanted.take(i as int).push(wanted[i as int]));
        i += 1;
    }
    assert(wanted.take(i as int) =~= wanted);
    proof {
        assert forall|k: int, user: UserStateModel|
            0 <= k < users@.len() && fits_columns(user) && #[trigger] holds(users@[k]@.id, user, users@[k]@, f, h, w) implies comes_back(
            user,
            r@[k].1@,
        ) by {
            assert(read_back_for(h, users@[k]@.id));
            law_saved_user_is_loaded(users@[k]@.id, user, users@[k]@, f, h, w);
            assert(user_models(r@)[k] == wanted[k]);
            assert(rows[k] == users@[k]@);
        }
    }
    r
}

// ─── settings ───

/// The global settings: `defaults` as they were read, and whether new users may start unless the word
/// for it is "0".
pub open spec fn settings_from(defaults: Option<AlertSettings>, allow_new_users: Option<Seq<char>>) -> GlobalSettings {
    GlobalSettings {
        defaults: all_limited(
            match defaults {
                Some(a) => a,
                None => default_alerts(),
            },
        ),
        allow_new_users: match allow_new_users {
            Some(word) => word != "0"@,
            None => true,
        },
    }
}

/// The global settings; what is missing is as in the beginning.
pub fn load_settings(defaults: Option<AlertSettings>, allow_new_users: &Option<String>) -> (r: GlobalSettings)
    ensures
        r == settings_from(defaults, opt_view(*allow_new_users)),
{
    let alerts = match defaults {
        Some(a) => a,
        None => AlertSettings::default(),
    };
    let allow = match allow_new_users {
        Some(word) => !same(word.as_str(), "0"),
        None => true,
    };
    GlobalSettings { defaults: alerts.clamped(), allow_new_users: allow }
}

/// How it is written down whether new users may start.
pub open spec fn allow_word(allow: bool) -> Seq<char> {
    if allow {
        "1"@
    } else {
        "0"@
    }
}

/// What is written of the global settings: the defaults, and whether new users may start.
pub fn save_settings(settings: &GlobalSettings) -> (r: (AlertSettings, &'static str))
    ensures
        r.0 == settings.defaults,
        r.1@ == allow_word(settings.allow_new_users),
{
    let word = if settings.allow_new_users {
        "1"
    } else {
        "0"
    };
    (settings.defaults, word)
}

/// Settings that were written are read back, their defaults within their ranges.
pub proof fn law_saved_settings_are_loaded(settings: GlobalSettings)
    ensures
        settings_from(Some(settings.defaults), Some(allow_word(settings.allow_new_users))) == (GlobalSettings {
            defaults: all_limited(settings.defaults),
            ..settings
        }),
{
    reveal_strlit("0");
    reveal_strlit("1");
    assert("0"@[0] == '0');
    assert("1"@[0] == '1');
}

} // verus!
