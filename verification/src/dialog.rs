//! The conversation of the bot: what is done for each message and each press of a button.
//!
//! Every function here takes what has come in, changes what is kept of the user, and gives the steps
//! that follow: messages to be sent, and data to be fetched for a page. Whoever runs the bot carries
//! the steps out in order, and hands the fetched data back to the functions that make the page.
use crate::models::{finite, Double, GeoPoint, LineDetail, LineDetailModel, LineStop, LineStopModel, RealTimeData};
use crate::pages::{
    cities_page, cities_view, favorites_page, favorites_view, find_cities, finished_page, finished_view,
    habits_page, habits_view, home_page, home_view, last_place_page, last_place_view, live_page, live_view, matching_cities,
    missing_stop_page, missing_stop_view, or_text, panel_page, panel_view, settings_page, settings_view, stop_label, stop_name, text_or,
    watch_page, watch_view, Board, BoardModel, Page, PageModel,
};
use crate::provider::registry::{ServiceEntry, ServiceEntryModel};
use crate::render::{escape, escaped};
use crate::seqs::{first_where, lemma_first_where, lemma_first_where_is};
use crate::stops::{find_stop, stop_index};
use crate::store::{
    alerts_of, all_limited, clock_at, clock_fits, field_range, field_step, has_trip, hour_at, in_limits, is_trip,
    law_limited_settings_stay, law_setting_one_keeps_the_rest, law_steps_raise_and_lower, lists_watches, local_clock, local_hour, queried,
    seen, setting, stepped, toggled, trip_index, trips_differ, user_of, with_setting, with_user, AlertField, AlertSettings, Favorite, FavoriteModel, Pending, Store,
    StoreModel, UserStateModel, WatchSpec, WatchSpecModel,
};
use crate::telegram::{CallbackQuery, CallbackQueryModel, Location, Message, MessageModel, Update, UpdateModel, User, UserModel};
use crate::text::{
    after_prefix, begins, chars_of, copy, dec, decimal, find_char, first_of, group_has, has, is_space, lemma_first_of, lowercase, lowercased, opt_view, parse_i64, read_int,
    same, space, text_of, trim, trimmed,
};
use crate::tokens::{action_of, Action, ActionModel, TokenModel, TokenTable};
use vstd::prelude::*;

verus! {

/// How to use the bot.
pub const HELP_TEXT: &'static str = "🚏 <b>WhereBus 使用说明</b>\n\n1️⃣ /city 选择城市与数据源（会记住）\n2️⃣ 直接发送线路名（如「K155」）搜索，或 /line 关键词\n3️⃣ 在线路里点上车站，查看实时到站\n4️⃣ 点「⭐ 收藏这一趟」保存「线路 + 上车站」，之后 /fav 一键刷新\n5️⃣ 点「🔔 盯这趟车」开始盯车：卡片消息按设定间隔自动刷新，车快到时主动提醒你\n6️⃣ /nearby 发送位置，查附近站点及各线路到站\n7️⃣ /habits 查看常用线路与高峰时段；主菜单会按当前时段推荐\n\n<b>盯车</b>（/watch）：选好线路与上车站后，可以指定等某一辆车，或跟随「最近的一班」。默认在目标车还差 1 站时提醒一次，进入 500 米后每 60 秒重复提醒，每 10 秒刷新一次卡片；这些都能在 /settings 里改。车进站或已驶过时自动结束。\n\n/app 打开「我的面板」（Mini App）：管理城市、收藏、提醒偏好，也能直接开始车次监控。\n\n数据来自公开的第三方公交数据源，没有任何模拟数据；上游异常时会如实提示。\n你的城市选择、收藏和查询统计保存在运行机器人的服务器本地文件中，/cancel 可取消当前输入。";

/// How many seconds the list of lines of a source is kept.
pub const LINES_CACHE_TTL_SECS: u64 = 600;

/// How many seconds the stops of a line are kept.
pub const DETAIL_CACHE_TTL_SECS: u64 = 300;

/// Whether something that was read `age_secs` seconds ago is still good, where it keeps for
/// `ttl_secs` seconds.
pub fn is_fresh(age_secs: u64, ttl_secs: u64) -> (r: bool)
    ensures
        r == (age_secs < ttl_secs),
{
    age_secs < ttl_secs
}

/// How many seconds a source may take to answer.
pub const UPSTREAM_TIMEOUT_SECS: u64 = 20;

/// What the bot was set up with.
pub struct Env {
    /// The sources on offer.
    pub services: Vec<ServiceEntry>,
    /// Hours ahead of UTC.
    pub tz_offset: i64,
    /// Where the panel is.
    pub miniapp_url: Option<String>,
}

/// What a [`Env`] holds.
#[verifier::ext_equal]
pub struct EnvModel {
    pub services: Seq<ServiceEntryModel>,
    pub tz_offset: i64,
    pub miniapp_url: Option<Seq<char>>,
}

impl View for Env {
    type V = EnvModel;

    open spec fn view(&self) -> EnvModel {
        EnvModel {
            services: ServiceEntry::models(self.services@),
            tz_offset: self.tz_offset,
            miniapp_url: opt_view(self.miniapp_url),
        }
    }
}

/// What follows.
pub enum Step {
    /// Send a message.
    Send { chat_id: i64, page: Page },
    /// Put a page in the place of a message.
    Edit { chat_id: i64, message_id: i64, page: Page },
    /// Answer the press of a button.
    Answer { callback_id: String, text: String, alert: bool },
    /// Fetch the lines of a source and show those that answer to a keyword.
    Search { chat_id: i64, service: String, keyword: String, page: usize, edit: Option<i64> },
    /// Fetch a line and show it.
    Line { chat_id: i64, message_id: i64, user_id: i64, service: String, direction: String, page: usize },
    /// Fetch a line and its arrivals and show them.
    Live { chat_id: i64, message_id: i64, user_id: i64, service: String, direction: String, order: u32, record: bool },
    /// Fetch a line, and add or remove it as a favourite.
    Toggle { user_id: i64, service: String, direction: String, order: u32 },
    /// Fetch the stops near a position and show them.
    Nearby { chat_id: i64, edit: Option<i64>, service: String, lat: Double, lng: Double },
    /// Fetch the lines of a stop and show them.
    Station { chat_id: i64, message_id: i64, service: String, name: String, lat: Double, lng: Double },
    /// Fetch a line and its arrivals and show the vehicles to wait for.
    WatchSetup { chat_id: i64, message_id: i64, service: String, direction: String, order: u32 },
    /// Begin a watch.
    WatchStart { user_id: i64, chat_id: i64, service: String, direction: String, order: u32, bus: Option<String> },
    /// Stop the watch.
    WatchStop { user_id: i64, chat_id: i64, message_id: i64 },
    /// Turn a position into the coordinates of the sources.
    Convert { chat_id: i64, user_id: i64, service: String, latitude: Double, longitude: Double },
}

/// What a [`Step`] holds.
#[verifier::ext_equal]
pub enum StepModel {
    Send { chat_id: i64, page: PageModel },
    Edit { chat_id: i64, message_id: i64, page: PageModel },
    Answer { callback_id: Seq<char>, text: Seq<char>, alert: bool },
    Search { chat_id: i64, service: Seq<char>, keyword: Seq<char>, page: usize, edit: Option<i64> },
    Line { chat_id: i64, message_id: i64, user_id: i64, service: Seq<char>, direction: Seq<char>, page: usize },
    Live { chat_id: i64, message_id: i64, user_id: i64, service: Seq<char>, direction: Seq<char>, order: u32, record: bool },
    Toggle { user_id: i64, service: Seq<char>, direction: Seq<char>, order: u32 },
    Nearby { chat_id: i64, edit: Option<i64>, service: Seq<char>, lat: Double, lng: Double },
    Station { chat_id: i64, message_id: i64, service: Seq<char>, name: Seq<char>, lat: Double, lng: Double },
    WatchSetup { chat_id: i64, message_id: i64, service: Seq<char>, direction: Seq<char>, order: u32 },
    WatchStart { user_id: i64, chat_id: i64, service: Seq<char>, direction: Seq<char>, order: u32, bus: Option<Seq<char>> },
    WatchStop { user_id: i64, chat_id: i64, message_id: i64 },
    Convert { chat_id: i64, user_id: i64, service: Seq<char>, latitude: Double, longitude: Double },
}

impl View for Step {
    type V = StepModel;

    open spec fn view(&self) -> StepModel {
        match *self {
            Step::Send { chat_id, page } => StepModel::Send { chat_id: chat_id, page: page@ },
            Step::Edit { chat_id, message_id, page } => StepModel::Edit { chat_id: chat_id, message_id: message_id, page: page@ },
            Step::Answer { callback_id, text, alert } => StepModel::Answer { callback_id: callback_id@, text: text@, alert: alert },
            Step::Search { chat_id, service, keyword, page, edit } => StepModel::Search { chat_id: chat_id, service: service@, keyword: keyword@, page: page, edit: edit },
            Step::Line { chat_id, message_id, user_id, service, direction, page } => StepModel::Line { chat_id: chat_id, message_id: message_id, user_id: user_id, service: service@, direction: direction@, page: page },
            Step::Live { chat_id, message_id, user_id, service, direction, order, record } => StepModel::Live { chat_id: chat_id, message_id: message_id, user_id: user_id, service: service@, direction: direction@, order: order, record: record },
            Step::Toggle { user_id, service, direction, order } => StepModel::Toggle { user_id: user_id, service: service@, direction: direction@, order: order },
            Step::Nearby { chat_id, edit, service, lat, lng } => StepModel::Nearby { chat_id: chat_id, edit: edit, service: service@, lat: lat, lng: lng },
            Step::Station { chat_id, message_id, service, name, lat, lng } => StepModel::Station { chat_id: chat_id, message_id: message_id, service: service@, name: name@, lat: lat, lng: lng },
            Step::WatchSetup { chat_id, message_id, service, direction, order } => StepModel::WatchSetup { chat_id: chat_id, message_id: message_id, service: service@, direction: direction@, order: order },
            Step::WatchStart { user_id, chat_id, service, direction, order, bus } => StepModel::WatchStart { user_id: user_id, chat_id: chat_id, service: service@, direction: direction@, order: order, bus: opt_view(bus) },
            Step::WatchStop { user_id, chat_id, message_id } => StepModel::WatchStop { user_id: user_id, chat_id: chat_id, message_id: message_id },
            Step::Convert { chat_id, user_id, service, latitude, longitude } => StepModel::Convert { chat_id: chat_id, user_id: user_id, service: service@, latitude: latitude, longitude: longitude },
        }
    }
}

impl Step {
    /// What a list of [`Step`] holds.
    pub open spec fn models(list: Seq<Step>) -> Seq<StepModel> {
        list.map_values(|x: Step| x@)
    }
}

// ─── making steps ───

/// A message without a keyboard.
pub open spec fn bare_page(text: Seq<char>) -> PageModel {
    PageModel { text: text, board: BoardModel::Bare }
}

/// Sends a message without a keyboard.
pub open spec fn say_step(chat_id: i64, text: Seq<char>) -> StepModel {
    StepModel::Send { chat_id: chat_id, page: bare_page(text) }
}

/// Sends a message and takes a keyboard away.
pub open spec fn say_removing(chat_id: i64, text: Seq<char>) -> StepModel {
    StepModel::Send { chat_id: chat_id, page: PageModel { text: text, board: BoardModel::Remove } }
}

/// Puts a page in the place of a message, or sends it where there is none.
pub open spec fn show_step(chat_id: i64, edit: Option<i64>, page: PageModel) -> StepModel {
    match edit {
        Some(message_id) => StepModel::Edit { chat_id: chat_id, message_id: message_id, page: page },
        None => StepModel::Send { chat_id: chat_id, page: page },
    }
}

/// A message without a keyboard.
pub fn plain_page(text: &str) -> (r: Page)
    ensures
        r@ == bare_page(text@),
{
    Page { text: copy(text), board: Board::Bare }
}

/// Puts a page in the place of a message, or sends it where there is none.
pub fn deliver(chat_id: i64, edit: Option<i64>, page: Page) -> (r: Step)
    ensures
        r@ == show_step(chat_id, edit, page@),
{
    match edit {
        Some(message_id) => Step::Edit { chat_id: chat_id, message_id: message_id, page: page },
        None => Step::Send { chat_id: chat_id, page: page },
    }
}

fn say(chat_id: i64, text: &str) -> (r: Step)
    ensures
        r@ == say_step(chat_id, text@),
{
    Step::Send { chat_id: chat_id, page: plain_page(text) }
}

fn remove_and_say(chat_id: i64, text: &str) -> (r: Step)
    ensures
        r@ == say_removing(chat_id, text@),
{
    Step::Send { chat_id: chat_id, page: Page { text: copy(text), board: Board::Remove } }
}

fn no_steps() -> (r: Vec<Step>)
    ensures
        Step::models(r@) == Seq::<StepModel>::empty(),
{
    let r: Vec<Step> = Vec::new();
    assert(Step::models(r@) =~= Seq::<StepModel>::empty());
    r
}

fn only(step: Step) -> (r: Vec<Step>)
    ensures
        Step::models(r@) == seq![step@],
{
    let mut r: Vec<Step> = Vec::new();
    r.push(step);
    assert(Step::models(r@) =~= seq![step@]);
    r
}

fn pair(first: Step, second: Step) -> (r: Vec<Step>)
    ensures
        Step::models(r@) == seq![first@, second@],
{
    let mut r: Vec<Step> = Vec::new();
    r.push(first);
    r.push(second);
    assert(Step::models(r@) =~= seq![first@, second@]);
    r
}

fn with_step(steps: Vec<Step>, step: Step) -> (r: Vec<Step>)
    ensures
        Step::models(r@) == Step::models(steps@).push(step@),
{
    let mut r = steps;
    let ghost had = Step::models(r@);
    r.push(step);
    assert(Step::models(r@) =~= had.push(step@));
    r
}

fn after_step(step: Step, steps: Vec<Step>) -> (r: Vec<Step>)
    ensures
        Step::models(r@) == seq![step@] + Step::models(steps@),
{
    let mut r = steps;
    let ghost had = Step::models(r@);
    r.insert(0, step);
    assert(Step::models(r@) =~= seq![step@] + had);
    r
}

// ─── changing what is kept ───

/// The store after a user is waited for to type something.
pub open spec fn pending_store(store: StoreModel, user_id: i64, pending: Pending, now: u64) -> StoreModel {
    with_user(
        store,
        user_id,
        UserStateModel { pending: pending, ..seen(user_of(store.users, user_id), now) },
    )
}

fn set_pending(store: &mut Store, user_id: i64, pending: Pending, now: u64)
    ensures
        final(store)@ == pending_store(old(store)@, user_id, pending, now),
{
    let mut user = store.touched(user_id, now);
    user.pending = pending;
    store.put(user_id, user);
}

/// What is done with an update: what is kept afterwards, and the steps.
pub struct Plan {
    pub store: StoreModel,
    pub steps: Seq<StepModel>,
}

/// Whether somebody may go on, what is kept afterwards, and what is said to them.
pub open spec fn admission(store: StoreModel, chat_id: i64, user_id: i64, from: Option<UserModel>, now: u64) -> (
    bool,
    StoreModel,
    Seq<StepModel>,
) {
    if user_of(store.users, user_id).banned {
        (false, store, seq![say_step(chat_id, "你的账号已被管理员停用。"@)])
    } else if !store.settings.allow_new_users && !store.users.dom().contains(user_id) {
        (false, store, seq![say_step(chat_id, "机器人当前不接受新用户，请联系管理员。"@)])
    } else {
        match from {
            Some(from) => (
                true,
                with_user(
                    store,
                    user_id,
                    UserStateModel {
                        display_name: from.first_name,
                        username: from.username,
                        ..seen(user_of(store.users, user_id), now)
                    },
                ),
                Seq::empty(),
            ),
            None => (true, store, Seq::empty()),
        }
    }
}

/// Lets somebody in or turns them away.
pub fn let_in(store: &mut Store, chat_id: i64, user_id: i64, from: &Option<User>, now: u64) -> (r: (bool, Vec<Step>))
    ensures
        admission(
            old(store)@,
            chat_id,
            user_id,
            match *from {
                Some(u) => Some(u@),
                None => None,
            },
            now,
        ) == (r.0, final(store)@, Step::models(r.1@)),
{
    if store.get(user_id).banned {
        return (false, only(say(chat_id, "你的账号已被管理员停用。")));
    }
    if !store.settings().allow_new_users && !store.has_user(user_id) {
        return (false, only(say(chat_id, "机器人当前不接受新用户，请联系管理员。")));
    }
    match from {
        Some(from) => {
            let mut user = store.touched(user_id, now);
            user.display_name = from.first_name.clone();
            user.username = from.username.clone();
            store.put(user_id, user);
        },
        None => {},
    }
    (true, no_steps())
}

/// A user who is banned is turned away, and nothing of them is changed.
pub proof fn law_banned_user_is_turned_away(store: StoreModel, chat_id: i64, user_id: i64, from: Option<UserModel>, now: u64)
    requires
        store.users.dom().contains(user_id),
        store.users[user_id].banned,
    ensures
        !admission(store, chat_id, user_id, from, now).0,
        admission(store, chat_id, user_id, from, now).1 == store,
{
}

/// Where no new users are taken, whoever has no record is turned away, and whoever has one and is not
/// banned may go on.
pub proof fn law_new_users_can_be_kept_out(store: StoreModel, chat_id: i64, user_id: i64, from: Option<UserModel>, now: u64)
    requires
        !store.settings.allow_new_users,
        !user_of(store.users, user_id).banned,
    ensures
        admission(store, chat_id, user_id, from, now).0 == store.users.dom().contains(user_id),
{
}

// ─── the parts that commands and buttons share ───

/// The pages and what is kept after cities were asked for.
pub open spec fn cities_plan(
    store: StoreModel,
    env: EnvModel,
    chat_id: i64,
    user_id: i64,
    keyword: Seq<char>,
    page: usize,
    edit: Option<i64>,
    now: u64,
) -> Plan {
    let word = trim(keyword);
    let matches = matching_cities(env.services, word);
    Plan {
        store: if matches.len() == 0 {
            store
        } else {
            pending_store(store, user_id, Pending::Nothing, now)
        },
        steps: seq![show_step(chat_id, edit, cities_page(matches, word, page as nat))],
    }
}

/// Shows the cities that answer to a keyword.
pub fn show_cities(
    store: &mut Store,
    env: &Env,
    chat_id: i64,
    user_id: i64,
    keyword: &str,
    page: usize,
    edit: Option<i64>,
    now: u64,
) -> (r: Vec<Step>)
    ensures
        cities_plan(old(store)@, env@, chat_id, user_id, keyword@, page, edit, now) == (Plan {
            store: final(store)@,
            steps: Step::models(r@),
        }),
{
    let word = trimmed(keyword);
    let matches = find_cities(&env.services, word.as_str());
    assert(ServiceEntry::models(matches@).len() == matches@.len());
    let view = cities_view(&matches, word.as_str(), page);
    if matches.len() > 0 {
        set_pending(store, user_id, Pending::Nothing, now);
    }
    only(deliver(chat_id, edit, view))
}

/// What follows a search for lines.
pub open spec fn search_plan(
    store: StoreModel,
    chat_id: i64,
    user_id: i64,
    keyword: Seq<char>,
    page: usize,
    edit: Option<i64>,
    now: u64,
) -> Plan {
    Plan {
        store: pending_store(store, user_id, Pending::Nothing, now),
        steps: match user_of(store.users, user_id).service {
            None => seq![say_step(chat_id, "还没选城市，请先用 /city 选择。"@)],
            Some(service) => seq![
                StepModel::Search { chat_id: chat_id, service: service, keyword: trim(keyword), page: page, edit: edit },
            ],
        },
    }
}

/// Searches the lines of the chosen source.
pub fn show_search(
    store: &mut Store,
    chat_id: i64,
    user_id: i64,
    keyword: &str,
    page: usize,
    edit: Option<i64>,
    now: u64,
) -> (r: Vec<Step>)
    ensures
        search_plan(old(store)@, chat_id, user_id, keyword@, page, edit, now) == (Plan {
            store: final(store)@,
            steps: Step::models(r@),
        }),
{
    set_pending(store, user_id, Pending::Nothing, now);
    match store.get(user_id).service {
        None => only(say(chat_id, "还没选城市，请先用 /city 选择。")),
        Some(service) => only(
            Step::Search {
                chat_id: chat_id,
                service: service,
                keyword: trimmed(keyword),
                page: page,
                edit: edit,
            },
        ),
    }
}

/// What follows when stops near a position are asked for.
pub open spec fn location_plan(store: StoreModel, chat_id: i64, user_id: i64, now: u64) -> Plan {
    let user = user_of(store.users, user_id);
    let ask = StepModel::Send {
        chat_id: chat_id,
        page: PageModel {
            text: "请发送你的位置（点击下方按钮，私聊可用）。位置只用于查询附近站点，会保存为你最近一次坐标。"@,
            board: BoardModel::Location,
        },
    };
    if user.service is None {
        Plan {
            store: pending_store(store, user_id, Pending::City, now),
            steps: seq![say_step(chat_id, "还没选城市。请先回复城市名，或使用 /city。"@)],
        }
    } else if user.last_location is Some {
        Plan { store: store, steps: seq![StepModel::Send { chat_id: chat_id, page: last_place_page() }, ask] }
    } else {
        Plan { store: store, steps: seq![ask] }
    }
}

/// Asks for the position.
pub fn ask_location(store: &mut Store, chat_id: i64, user_id: i64, now: u64) -> (r: Vec<Step>)
    ensures
        location_plan(old(store)@, chat_id, user_id, now) == (Plan { store: final(store)@, steps: Step::models(r@) }),
{
    let user = store.get(user_id);
    if user.service.is_none() {
        set_pending(store, user_id, Pending::City, now);
        return only(say(chat_id, "还没选城市。请先回复城市名，或使用 /city。"));
    }
    let ask = Step::Send {
        chat_id: chat_id,
        page: Page {
            text: copy("请发送你的位置（点击下方按钮，私聊可用）。位置只用于查询附近站点，会保存为你最近一次坐标。"),
            board: Board::Location,
        },
    };
    if user.last_location.is_some() {
        pair(Step::Send { chat_id: chat_id, page: last_place_view() }, ask)
    } else {
        only(ask)
    }
}

/// What follows a position.
pub open spec fn on_location_plan(store: StoreModel, chat_id: i64, user_id: i64, location: Location, now: u64) -> Plan {
    if !location.latitude.is_finite() || !location.longitude.is_finite() {
        Plan { store: store, steps: seq![say_step(chat_id, "位置无效，请重新发送。"@)] }
    } else {
        match user_of(store.users, user_id).service {
            None => Plan {
                store: pending_store(store, user_id, Pending::City, now),
                steps: seq![say_step(chat_id, "还没选城市。请先回复城市名，或使用 /city。"@)],
            },
            Some(service) => Plan {
                store: store,
                steps: seq![
                    StepModel::Convert {
                        chat_id: chat_id,
                        user_id: user_id,
                        service: service,
                        latitude: location.latitude,
                        longitude: location.longitude,
                    },
                ],
            },
        }
    }
}

/// Takes a position.
pub fn on_location(store: &mut Store, chat_id: i64, user_id: i64, location: Location, now: u64) -> (r: Vec<Step>)
    ensures
        on_location_plan(old(store)@, chat_id, user_id, location, now) == (Plan {
            store: final(store)@,
            steps: Step::models(r@),
        }),
{
    if !finite(location.latitude) || !finite(location.longitude) {
        return only(say(chat_id, "位置无效，请重新发送。"));
    }
    match store.get(user_id).service {
        None => {
            set_pending(store, user_id, Pending::City, now);
            only(say(chat_id, "还没选城市。请先回复城市名，或使用 /city。"))
        },
        Some(service) => only(
            Step::Convert {
                chat_id: chat_id,
                user_id: user_id,
                service: service,
                latitude: location.latitude,
                longitude: location.longitude,
            },
        ),
    }
}

/// What follows when a position is there in the coordinates of the sources.
pub open spec fn converted_plan(store: StoreModel, chat_id: i64, user_id: i64, service: Seq<char>, at: GeoPoint, now: u64) -> Plan {
    Plan {
        store: with_user(
            store,
            user_id,
            UserStateModel {
                last_location: Some(at),
                pending: Pending::Nothing,
                ..seen(user_of(store.users, user_id), now)
            },
        ),
        steps: seq![
            say_removing(chat_id, "已收到位置，正在查询附近站点…"@),
            StepModel::Nearby { chat_id: chat_id, edit: None, service: service, lat: at.lat, lng: at.lng },
        ],
    }
}

/// Keeps a position and looks for the stops near it.
pub fn on_converted(store: &mut Store, chat_id: i64, user_id: i64, service: &str, at: GeoPoint, now: u64) -> (r: Vec<Step>)
    ensures
        converted_plan(old(store)@, chat_id, user_id, service@, at, now) == (Plan {
            store: final(store)@,
            steps: Step::models(r@),
        }),
{
    let mut user = store.touched(user_id, now);
    user.last_location = Some(at);
    user.pending = Pending::Nothing;
    store.put(user_id, user);
    pair(
        remove_and_say(chat_id, "已收到位置，正在查询附近站点…"),
        Step::Nearby { chat_id: chat_id, edit: None, service: copy(service), lat: at.lat, lng: at.lng },
    )
}

/// The start page of a user.
pub open spec fn home_of(store: StoreModel, env: EnvModel, user_id: i64, now: u64) -> PageModel {
    home_page(user_of(store.users, user_id), hour_at(now, env.tz_offset) as u32, env.miniapp_url)
}

fn home(store: &Store, env: &Env, user_id: i64, now: u64) -> (r: Page)
    requires
        clock_fits(now, env.tz_offset),
    ensures
        r@ == home_of(store@, env@, user_id, now),
{
    let user = store.get(user_id);
    home_view(&user, local_hour(now, env.tz_offset), &env.miniapp_url)
}

/// The page of settings of a user.
pub open spec fn settings_of(store: StoreModel, user_id: i64) -> PageModel {
    settings_page(alerts_of(store, user_id), user_of(store.users, user_id).alerts is None)
}

fn settings(store: &Store, user_id: i64) -> (r: Page)
    ensures
        r@ == settings_of(store@, user_id),
{
    let alerts = store.alerts_for(user_id);
    settings_view(&alerts, store.get(user_id).alerts.is_none())
}

/// The page of the watch of a user.
pub open spec fn watch_of(store: StoreModel, user_id: i64) -> PageModel {
    watch_page(user_of(store.users, user_id), alerts_of(store, user_id).poll_secs)
}

fn watching(store: &Store, user_id: i64) -> (r: Page)
    ensures
        r@ == watch_of(store@, user_id),
{
    let user = store.get(user_id);
    watch_view(&user, store.alerts_for(user_id).poll_secs)
}

fn habits(store: &Store, env: &Env, user_id: i64, now: u64) -> (r: Page)
    requires
        clock_fits(now, env.tz_offset),
    ensures
        r@ == habits_page(user_of(store@.users, user_id), hour_at(now, env@.tz_offset) as u32),
{
    let user = store.get(user_id);
    habits_view(&user, local_hour(now, env.tz_offset))
}

fn favorites(store: &Store, user_id: i64) -> (r: Page)
    ensures
        r@ == favorites_page(user_of(store@.users, user_id)),
{
    let user = store.get(user_id);
    favorites_view(&user)
}

// ─── commands ───

/// A command as it is written, and what follows it.
pub open spec fn command_parts(text: Seq<char>) -> Option<(Seq<char>, Seq<char>)> {
    if text.len() == 0 || text[0] != '/' {
        None
    } else {
        let rest = text.skip(1);
        let i = first_where(rest, |c: char| is_space(c));
        let head = rest.take(i);
        let argument = if i < rest.len() {
            trim(rest.skip(i + 1))
        } else {
            ""@
        };
        Some((head.take(first_of(head, '@')), argument))
    }
}

/// A command in lower case, and what follows it.
pub open spec fn command_of(text: Seq<char>) -> Option<(Seq<char>, Seq<char>)> {
    match command_parts(text) {
        Some((word, argument)) => if lowercased(word).len() == 0 {
            None
        } else {
            Some((lowercased(word), argument))
        },
        None => None,
    }
}

/// The view of a command and what follows it.
pub open spec fn command_view(r: Option<(String, String)>) -> Option<(Seq<char>, Seq<char>)> {
    match r {
        Some((a, b)) => Some((a@, b@)),
        None => None,
    }
}

/// Takes `/command@bot argument` apart.
pub fn split_command(text: &str) -> (r: Option<(String, String)>)
    ensures
        command_view(r) == command_parts(text@),
{
    let chars = chars_of(text);
    if chars.len() == 0 || chars[0] != '/' {
        return None;
    }
    let ghost rest = text@.skip(1);
    let ghost p = |c: char| is_space(c);
    let mut i: usize = 1;
    while i < chars.len() && !space(chars[i])
        invariant
            1 <= i <= chars@.len(),
            chars@ == text@,
            rest == text@.skip(1),
            p == (|c: char| is_space(c)),
            forall|j: int| 0 <= j < i - 1 ==> !p(#[trigger] rest[j]),
        decreases chars.len() - i,
    {
        assert(rest[i - 1] == chars@[i as int]);
        i += 1;
    }
    proof {
        if i < chars@.len() {
            assert(rest[i - 1] == chars@[i as int]);
        }
        lemma_first_where(rest, p, i - 1);
    }
    let head = text_of(&chars, 1, i);
    assert(head@ =~= rest.take(i - 1));
    let argument = if i < chars.len() {
        let tail = text_of(&chars, i + 1, chars.len());
        assert(tail@ =~= rest.skip(i - 1 + 1));
        trimmed(tail.as_str())
    } else {
        copy("")
    };
    let head_chars = chars_of(head.as_str());
    let at: usize = find_char(&head_chars, '@');
    let word = text_of(&head_chars, 0, at);
    assert(word@ =~= head@.take(at as int));
    Some((word, argument))
}

/// Reads `/command@bot argument`.
pub fn parse_command(text: &str) -> (r: Option<(String, String)>)
    ensures
        command_view(r) == command_of(text@),
{
    let (word, argument) = match split_command(text) {
        Some(parts) => parts,
        None => {
            return None;
        },
    };
    let name = lowercase(word.as_str());
    if name.as_str().is_empty() {
        None
    } else {
        Some((name, argument))
    }
}

/// What a command does.
pub open spec fn command_plan(
    store: StoreModel,
    env: EnvModel,
    chat_id: i64,
    user_id: i64,
    command: Seq<char>,
    argument: Seq<char>,
    now: u64,
) -> Plan {
    let user = user_of(store.users, user_id);
    let send = |page: PageModel| Plan { store: store, steps: seq![StepModel::Send { chat_id: chat_id, page: page }] };
    if command == "start"@ || command == "home"@ {
        let after = pending_store(store, user_id, Pending::Nothing, now);
        Plan {
            store: after,
            steps: seq![StepModel::Send { chat_id: chat_id, page: home_of(after, env, user_id, now) }],
        }
    } else if command == "help"@ {
        Plan { store: store, steps: seq![say_step(chat_id, HELP_TEXT@)] }
    } else if command == "city"@ || command == "cities"@ {
        if argument.len() == 0 {
            Plan {
                store: pending_store(store, user_id, Pending::City, now),
                steps: seq![say_removing(chat_id, "请回复城市名或省份，例如「杭州」「泉州」「广东」。"@)],
            }
        } else {
            cities_plan(store, env, chat_id, user_id, argument, 0, None, now)
        }
    } else if command == "line"@ || command == "search"@ || command == "bus"@ {
        if user.service is None {
            Plan {
                store: pending_store(store, user_id, Pending::City, now),
                steps: seq![say_step(chat_id, "还没选城市。请先回复城市名，或使用 /city。"@)],
            }
        } else if argument.len() == 0 {
            Plan {
                store: pending_store(store, user_id, Pending::Line, now),
                steps: seq![say_step(chat_id, "请回复线路关键词，例如「K155」「372」「机场」。"@)],
            }
        } else {
            search_plan(store, chat_id, user_id, argument, 0, None, now)
        }
    } else if command == "nearby"@ || command == "near"@ {
        location_plan(store, chat_id, user_id, now)
    } else if command == "fav"@ || command == "favs"@ || command == "favorites"@ || command == "favourite"@ {
        send(favorites_page(user))
    } else if command == "watch"@ || command == "watching"@ {
        send(watch_of(store, user_id))
    } else if command == "settings"@ || command == "setting"@ || command == "alerts"@ {
        send(settings_of(store, user_id))
    } else if command == "app"@ || command == "panel"@ {
        send(panel_page(env.miniapp_url))
    } else if command == "habits"@ || command == "stats"@ || command == "me"@ {
        send(habits_page(user, hour_at(now, env.tz_offset) as u32))
    } else if command == "cancel"@ {
        Plan {
            store: pending_store(store, user_id, Pending::Nothing, now),
            steps: seq![say_removing(chat_id, "已取消当前输入。"@)],
        }
    } else {
        Plan { store: store, steps: seq![say_step(chat_id, "不认识这个命令。发送 /help 查看用法。"@)] }
    }
}

/// Does a command.
pub fn on_command(
    store: &mut Store,
    env: &Env,
    chat_id: i64,
    user_id: i64,
    command: &str,
    argument: &str,
    now: u64,
) -> (r: Vec<Step>)
    requires
        clock_fits(now, env.tz_offset),
    ensures
        command_plan(old(store)@, env@, chat_id, user_id, command@, argument@, now) == (Plan {
            store: final(store)@,
            steps: Step::models(r@),
        }),
{
    if same(command, "start") || same(command, "home") {
        set_pending(store, user_id, Pending::Nothing, now);
        only(Step::Send { chat_id: chat_id, page: home(store, env, user_id, now) })
    } else if same(command, "help") {
        only(say(chat_id, HELP_TEXT))
    } else if same(command, "city") || same(command, "cities") {
        if argument.is_empty() {
            set_pending(store, user_id, Pending::City, now);
            only(remove_and_say(chat_id, "请回复城市名或省份，例如「杭州」「泉州」「广东」。"))
        } else {
            show_cities(store, env, chat_id, user_id, argument, 0, None, now)
        }
    } else if same(command, "line") || same(command, "search") || same(command, "bus") {
        if store.get(user_id).service.is_none() {
            set_pending(store, user_id, Pending::City, now);
            only(say(chat_id, "还没选城市。请先回复城市名，或使用 /city。"))
        } else if argument.is_empty() {
            set_pending(store, user_id, Pending::Line, now);
            only(say(chat_id, "请回复线路关键词，例如「K155」「372」「机场」。"))
        } else {
            show_search(store, chat_id, user_id, argument, 0, None, now)
        }
    } else if same(command, "nearby") || same(command, "near") {
        ask_location(store, chat_id, user_id, now)
    } else if same(command, "fav") || same(command, "favs") || same(command, "favorites") || same(command, "favourite") {
        only(Step::Send { chat_id: chat_id, page: favorites(store, user_id) })
    } else if same(command, "watch") || same(command, "watching") {
        only(Step::Send { chat_id: chat_id, page: watching(store, user_id) })
    } else if same(command, "settings") || same(command, "setting") || same(command, "alerts") {
        only(Step::Send { chat_id: chat_id, page: settings(store, user_id) })
    } else if same(command, "app") || same(command, "panel") {
        only(Step::Send { chat_id: chat_id, page: panel_view(&env.miniapp_url) })
    } else if same(command, "habits") || same(command, "stats") || same(command, "me") {
        only(Step::Send { chat_id: chat_id, page: habits(store, env, user_id, now) })
    } else if same(command, "cancel") {
        set_pending(store, user_id, Pending::Nothing, now);
        only(remove_and_say(chat_id, "已取消当前输入。"))
    } else {
        only(say(chat_id, "不认识这个命令。发送 /help 查看用法。"))
    }
}

// ─── messages ───

/// What a text that is no command does.
pub open spec fn text_plan(store: StoreModel, env: EnvModel, chat_id: i64, user_id: i64, text: Seq<char>, now: u64) -> Plan {
    let user = user_of(store.users, user_id);
    if user.pending is City {
        cities_plan(store, env, chat_id, user_id, text, 0, None, now)
    } else if user.service is Some {
        search_plan(store, chat_id, user_id, text, 0, None, now)
    } else {
        Plan {
            store: pending_store(store, user_id, Pending::City, now),
            steps: seq![
                say_step(chat_id, "请先选择城市：直接回复城市名（例如「杭州」或「浙江」），或使用 /city。"@),
            ],
        }
    }
}

/// Who a message is from: its sender, or the chat where it has none.
pub open spec fn sender_of(message: MessageModel) -> i64 {
    match message.from {
        Some(user) => user.id,
        None => message.chat.id,
    }
}

/// What a message does.
pub open spec fn message_plan(store: StoreModel, env: EnvModel, message: MessageModel, now: u64) -> Plan {
    let chat_id = message.chat.id;
    let user_id = sender_of(message);
    let (admitted, kept, refusal) = admission(store, chat_id, user_id, message.from, now);
    if !admitted {
        Plan { store: kept, steps: refusal }
    } else {
        match message.location {
            Some(location) => on_location_plan(kept, chat_id, user_id, location, now),
            None => match message.text {
                None => Plan { store: kept, steps: Seq::empty() },
                Some(text) => {
                    let text = trim(text);
                    if text.len() == 0 {
                        Plan { store: kept, steps: Seq::empty() }
                    } else {
                        match command_of(text) {
                            Some((command, argument)) => command_plan(
                                kept,
                                env,
                                chat_id,
                                user_id,
                                command,
                                argument,
                                now,
                            ),
                            None => text_plan(kept, env, chat_id, user_id, text, now),
                        }
                    }
                },
            },
        }
    }
}

/// Does what a text that is no command asks for.
pub fn on_text(store: &mut Store, env: &Env, chat_id: i64, user_id: i64, text: &str, now: u64) -> (r: Vec<Step>)
    ensures
        text_plan(old(store)@, env@, chat_id, user_id, text@, now) == (Plan {
            store: final(store)@,
            steps: Step::models(r@),
        }),
{
    let user = store.get(user_id);
    match user.pending {
        Pending::City => show_cities(store, env, chat_id, user_id, text, 0, None, now),
        _ => {
            if user.service.is_some() {
                show_search(store, chat_id, user_id, text, 0, None, now)
            } else {
                set_pending(store, user_id, Pending::City, now);
                only(say(chat_id, "请先选择城市：直接回复城市名（例如「杭州」或「浙江」），或使用 /city。"))
            }
        },
    }
}

/// Does what a message asks for.
pub fn handle_message(store: &mut Store, env: &Env, message: &Message, now: u64) -> (r: Vec<Step>)
    requires
        clock_fits(now, env.tz_offset),
    ensures
        message_plan(old(store)@, env@, message@, now) == (Plan { store: final(store)@, steps: Step::models(r@) }),
{
    let chat_id: i64 = message.chat.id;
    let user_id: i64 = match &message.from {
        Some(user) => user.id,
        None => chat_id,
    };
    let (admitted, refusal) = let_in(store, chat_id, user_id, &message.from, now);
    if !admitted {
        return refusal;
    }
    match message.location {
        Some(location) => on_location(store, chat_id, user_id, location, now),
        None => match &message.text {
            None => no_steps(),
            Some(raw) => {
                let text = trimmed(raw.as_str());
                if text.as_str().is_empty() {
                    return no_steps();
                }
                match parse_command(text.as_str()) {
                    Some((command, argument)) => on_command(
                        store,
                        env,
                        chat_id,
                        user_id,
                        command.as_str(),
                        argument.as_str(),
                        now,
                    ),
                    None => on_text(store, env, chat_id, user_id, text.as_str(), now),
                }
            },
        },
    }
}

// ─── buttons ───

/// What a part of the menu does.
pub open spec fn menu_plan(
    store: StoreModel,
    env: EnvModel,
    chat_id: i64,
    message_id: i64,
    user_id: i64,
    menu: Seq<char>,
    now: u64,
) -> Plan {
    let user = user_of(store.users, user_id);
    let edit = |page: PageModel| Plan {
        store: store,
        steps: seq![StepModel::Edit { chat_id: chat_id, message_id: message_id, page: page }],
    };
    if menu == "home"@ {
        edit(home_of(store, env, user_id, now))
    } else if menu == "fav"@ {
        edit(favorites_page(user))
    } else if menu == "habit"@ {
        edit(habits_page(user, hour_at(now, env.tz_offset) as u32))
    } else if menu == "city"@ {
        Plan {
            store: pending_store(store, user_id, Pending::City, now),
            steps: seq![say_step(chat_id, "请回复城市名或省份，例如「杭州」「广东」。"@)],
        }
    } else if menu == "search"@ {
        Plan {
            store: pending_store(store, user_id, Pending::Line, now),
            steps: seq![say_step(chat_id, "请回复线路关键词，例如「K155」「机场」。"@)],
        }
    } else if menu == "nearby"@ {
        location_plan(store, chat_id, user_id, now)
    } else if menu == "settings"@ {
        edit(settings_of(store, user_id))
    } else if menu == "watch"@ {
        edit(watch_of(store, user_id))
    } else if menu == "help"@ {
        Plan { store: store, steps: seq![say_step(chat_id, HELP_TEXT@)] }
    } else {
        Plan { store: store, steps: Seq::empty() }
    }
}

/// Does a part of the menu.
pub fn handle_menu(
    store: &mut Store,
    env: &Env,
    chat_id: i64,
    message_id: i64,
    user_id: i64,
    menu: &str,
    now: u64,
) -> (r: Vec<Step>)
    requires
        clock_fits(now, env.tz_offset),
    ensures
        menu_plan(old(store)@, env@, chat_id, message_id, user_id, menu@, now) == (Plan {
            store: final(store)@,
            steps: Step::models(r@),
        }),
{
    if same(menu, "home") {
        only(Step::Edit { chat_id: chat_id, message_id: message_id, page: home(store, env, user_id, now) })
    } else if same(menu, "fav") {
        only(Step::Edit { chat_id: chat_id, message_id: message_id, page: favorites(store, user_id) })
    } else if same(menu, "habit") {
        only(Step::Edit { chat_id: chat_id, message_id: message_id, page: habits(store, env, user_id, now) })
    } else if same(menu, "city") {
        set_pending(store, user_id, Pending::City, now);
        only(say(chat_id, "请回复城市名或省份，例如「杭州」「广东」。"))
    } else if same(menu, "search") {
        set_pending(store, user_id, Pending::Line, now);
        only(say(chat_id, "请回复线路关键词，例如「K155」「机场」。"))
    } else if same(menu, "nearby") {
        ask_location(store, chat_id, user_id, now)
    } else if same(menu, "settings") {
        only(Step::Edit { chat_id: chat_id, message_id: message_id, page: settings(store, user_id) })
    } else if same(menu, "watch") {
        only(Step::Edit { chat_id: chat_id, message_id: message_id, page: watching(store, user_id) })
    } else if same(menu, "help") {
        only(say(chat_id, HELP_TEXT))
    } else {
        no_steps()
    }
}

/// The user after a setting was changed by a button: their own settings, or the defaults, changed.
pub open spec fn adjusted_user(store: StoreModel, user_id: i64, field: AlertField, steps: i64, now: u64) -> UserStateModel {
    let user = seen(user_of(store.users, user_id), now);
    let alerts = match user.alerts {
        Some(own) => own,
        None => store.settings.defaults,
    };
    UserStateModel { alerts: Some(with_setting(alerts, field, stepped(alerts, field, steps))), ..user }
}

/// The user without a favourite.
pub open spec fn without_favorite(user: UserStateModel, service: Seq<char>, direction: Seq<char>, order: u32) -> UserStateModel {
    let i = trip_index(user.favorites, service, direction, order);
    if i < user.favorites.len() {
        UserStateModel { favorites: user.favorites.remove(i), ..user }
    } else {
        user
    }
}

/// What an action does.
pub open spec fn action_plan(
    store: StoreModel,
    env: EnvModel,
    chat_id: i64,
    message_id: i64,
    user_id: i64,
    action: ActionModel,
    now: u64,
) -> Plan {
    let user = user_of(store.users, user_id);
    let touched = seen(user, now);
    let edit = |kept: StoreModel, page: PageModel| Plan {
        store: kept,
        steps: seq![StepModel::Edit { chat_id: chat_id, message_id: message_id, page: page }],
    };
    let step = |step: StepModel| Plan { store: store, steps: seq![step] };
    match action {
        ActionModel::PickService { service, label } => {
            let kept = with_user(
                store,
                user_id,
                UserStateModel {
                    service: Some(service),
                    city_label: Some(label),
                    pending: Pending::Nothing,
                    ..touched
                },
            );
            let page = home_of(kept, env, user_id, now);
            edit(
                kept,
                PageModel {
                    text: "✅ 已切换到 <b>"@ + escaped(label) + "</b>\n\n"@ + page.text,
                    board: page.board,
                },
            )
        },
        ActionModel::CityPage { keyword, page } => cities_plan(
            store,
            env,
            chat_id,
            user_id,
            keyword,
            page,
            Some(message_id),
            now,
        ),
        ActionModel::SearchPage { keyword, page } => search_plan(
            store,
            chat_id,
            user_id,
            keyword,
            page,
            Some(message_id),
            now,
        ),
        ActionModel::Line { service, direction, page } => step(
            StepModel::Line {
                chat_id: chat_id,
                message_id: message_id,
                user_id: user_id,
                service: service,
                direction: direction,
                page: page,
            },
        ),
        ActionModel::Live { service, direction, order } => step(
            StepModel::Live {
                chat_id: chat_id,
                message_id: message_id,
                user_id: user_id,
                service: service,
                direction: direction,
                order: order,
                record: true,
            },
        ),
        ActionModel::FavToggle { service, direction, order } => Plan {
            store: store,
            steps: seq![
                StepModel::Toggle { user_id: user_id, service: service, direction: direction, order: order },
                StepModel::Live {
                    chat_id: chat_id,
                    message_id: message_id,
                    user_id: user_id,
                    service: service,
                    direction: direction,
                    order: order,
                    record: false,
                },
            ],
        },
        ActionModel::FavRemove { service, direction, order } => {
            let kept = with_user(store, user_id, without_favorite(touched, service, direction, order));
            edit(kept, favorites_page(user_of(kept.users, user_id)))
        },
        ActionModel::Station { service, name, lat, lng } => step(
            StepModel::Station {
                chat_id: chat_id,
                message_id: message_id,
                service: service,
                name: name,
                lat: lat,
                lng: lng,
            },
        ),
        ActionModel::NearbyHere => match (user.service, user.last_location) {
            (Some(service), Some(at)) => step(
                StepModel::Nearby {
                    chat_id: chat_id,
                    edit: Some(message_id),
                    service: service,
                    lat: at.lat,
                    lng: at.lng,
                },
            ),
            _ => edit(store, bare_page("还没有保存过位置，请用 /nearby 发送位置。"@)),
        },
        ActionModel::WatchSetup { service, direction, order } => step(
            StepModel::WatchSetup {
                chat_id: chat_id,
                message_id: message_id,
                service: service,
                direction: direction,
                order: order,
            },
        ),
        ActionModel::WatchStart { service, direction, order, bus } => step(
            StepModel::WatchStart {
                user_id: user_id,
                chat_id: chat_id,
                service: service,
                direction: direction,
                order: order,
                bus: bus,
            },
        ),
        ActionModel::WatchStop => step(
            StepModel::WatchStop { user_id: user_id, chat_id: chat_id, message_id: message_id },
        ),
        ActionModel::SettingsAdjust { field, steps } => {
            let kept = with_user(store, user_id, adjusted_user(store, user_id, field, steps, now));
            edit(kept, settings_of(kept, user_id))
        },
        ActionModel::SettingsReset => {
            let kept = with_user(store, user_id, UserStateModel { alerts: None, ..touched });
            edit(kept, settings_of(kept, user_id))
        },
    }
}

/// Does an action.
pub fn on_action(
    store: &mut Store,
    env: &Env,
    chat_id: i64,
    message_id: i64,
    user_id: i64,
    action: Action,
    now: u64,
) -> (r: Vec<Step>)
    requires
        clock_fits(now, env.tz_offset),
    ensures
        action_plan(old(store)@, env@, chat_id, message_id, user_id, action@, now) == (Plan {
            store: final(store)@,
            steps: Step::models(r@),
        }),
{
    match action {
        Action::PickService { service, label } => {
            let mut t = copy("✅ 已切换到 <b>");
            t.append(escape(label.as_str()).as_str());
            t.append("</b>\n\n");
            let mut user = store.touched(user_id, now);
            user.service = Some(service);
            user.city_label = Some(label);
            user.pending = Pending::Nothing;
            store.put(user_id, user);
            let page = home(store, env, user_id, now);
            t.append(page.text.as_str());
            only(
                Step::Edit { chat_id: chat_id, message_id: message_id, page: Page { text: t, board: page.board } },
            )
        },
        Action::CityPage { keyword, page } => show_cities(
            store,
            env,
            chat_id,
            user_id,
            keyword.as_str(),
            page,
            Some(message_id),
            now,
        ),
        Action::SearchPage { keyword, page } => show_search(
            store,
            chat_id,
            user_id,
            keyword.as_str(),
            page,
            Some(message_id),
            now,
        ),
        Action::Line { service, direction, page } => only(
            Step::Line {
                chat_id: chat_id,
                message_id: message_id,
                user_id: user_id,
                service: service,
                direction: direction,
                page: page,
            },
        ),
        Action::Live { service, direction, order } => only(
            Step::Live {
                chat_id: chat_id,
                message_id: message_id,
                user_id: user_id,
                service: service,
                direction: direction,
                order: order,
                record: true,
            },
        ),
        Action::FavToggle { service, direction, order } => {
            let first = Step::Toggle {
                user_id: user_id,
                service: service.clone(),
                direction: direction.clone(),
                order: order,
            };
            pair(
                first,
                Step::Live {
                    chat_id: chat_id,
                    message_id: message_id,
                    user_id: user_id,
                    service: service,
                    direction: direction,
                    order: order,
                    record: false,
                },
            )
        },
        Action::FavRemove { service, direction, order } => {
            let mut user = store.touched(user_id, now);
            let ghost before = user@;
            match user.favorite_index(service.as_str(), direction.as_str(), order) {
                Some(index) => {
                    let _ = user.favorites.remove(index);
                    assert(user@.favorites =~= before.favorites.remove(index as int));
                },
                None => {},
            }
            store.put(user_id, user);
            only(Step::Edit { chat_id: chat_id, message_id: message_id, page: favorites(store, user_id) })
        },
        Action::Station { service, name, lat, lng } => only(
            Step::Station {
                chat_id: chat_id,
                message_id: message_id,
                service: service,
                name: name,
                lat: lat,
                lng: lng,
            },
        ),
        Action::NearbyHere => {
            let user = store.get(user_id);
            match (user.service, user.last_location) {
                (Some(service), Some(at)) => only(
                    Step::Nearby {
                        chat_id: chat_id,
                        edit: Some(message_id),
                        service: service,
                        lat: at.lat,
                        lng: at.lng,
                    },
                ),
                _ => only(
                    Step::Edit {
                        chat_id: chat_id,
                        message_id: message_id,
                        page: plain_page("还没有保存过位置，请用 /nearby 发送位置。"),
                    },
                ),
            }
        },
        Action::WatchSetup { service, direction, order } => only(
            Step::WatchSetup {
                chat_id: chat_id,
                message_id: message_id,
                service: service,
                direction: direction,
                order: order,
            },
        ),
        Action::WatchStart { service, direction, order, bus } => only(
            Step::WatchStart {
                user_id: user_id,
                chat_id: chat_id,
                service: service,
                direction: direction,
                order: order,
                bus: bus,
            },
        ),
        Action::WatchStop => only(
            Step::WatchStop { user_id: user_id, chat_id: chat_id, message_id: message_id },
        ),
        Action::SettingsAdjust { field, steps } => {
            let defaults = store.settings().defaults;
            let mut user = store.touched(user_id, now);
            let mut alerts = match user.alerts {
                Some(own) => own,
                None => defaults,
            };
            let _ = alerts.adjust(field, steps);
            user.alerts = Some(alerts);
            store.put(user_id, user);
            only(Step::Edit { chat_id: chat_id, message_id: message_id, page: settings(store, user_id) })
        },
        Action::SettingsReset => {
            let mut user = store.touched(user_id, now);
            user.alerts = None;
            store.put(user_id, user);
            only(Step::Edit { chat_id: chat_id, message_id: message_id, page: settings(store, user_id) })
        },
    }
}

/// The data of a button; none is the empty one.
pub open spec fn data_of(data: Option<Seq<char>>) -> Seq<char> {
    match data {
        Some(data) => data,
        None => Seq::empty(),
    }
}

/// What the press of a button does.
pub open spec fn callback_plan(
    store: StoreModel,
    tokens: TokenModel,
    env: EnvModel,
    callback: CallbackQueryModel,
    now: u64,
) -> Plan {
    let user_id = callback.from.id;
    let answer = |text: Seq<char>, alert: bool| StepModel::Answer { callback_id: callback.id, text: text, alert: alert };
    let data = data_of(callback.data);
    match callback.message {
        None => Plan { store: store, steps: seq![answer("消息太旧，请重新发送命令。"@, true)] },
        Some(message) => {
            let chat_id = message.chat.id;
            let (admitted, kept, refusal) = admission(store, chat_id, user_id, Some(callback.from), now);
            if !admitted {
                Plan { store: kept, steps: refusal.push(answer("账号不可用"@, true)) }
            } else if begins(data, "m:"@) {
                let rest = menu_plan(kept, env, chat_id, message.message_id, user_id, data.skip("m:"@.len() as int), now);
                Plan { store: rest.store, steps: seq![answer(""@, false)] + rest.steps }
            } else {
                match action_of(tokens, data) {
                    None => Plan {
                        store: kept,
                        steps: seq![answer("按钮已过期（机器人重启过），请重新查询。"@, true)],
                    },
                    Some(action) => {
                        let rest = action_plan(kept, env, chat_id, message.message_id, user_id, action, now);
                        Plan { store: rest.store, steps: seq![answer("查询中…"@, false)] + rest.steps }
                    },
                }
            }
        },
    }
}

/// Does what the press of a button asks for.
pub fn handle_callback(store: &mut Store, tokens: &TokenTable, env: &Env, callback: &CallbackQuery, now: u64) -> (r: Vec<Step>)
    requires
        clock_fits(now, env.tz_offset),
    ensures
        callback_plan(old(store)@, tokens@, env@, callback@, now) == (Plan {
            store: final(store)@,
            steps: Step::models(r@),
        }),
{
    let user_id: i64 = callback.from.id;
    let message = match &callback.message {
        None => {
            return only(
                Step::Answer {
                    callback_id: callback.id.clone(),
                    text: copy("消息太旧，请重新发送命令。"),
                    alert: true,
                },
            );
        },
        Some(message) => message,
    };
    let chat_id: i64 = message.chat.id;
    let message_id: i64 = message.message_id;
    let from = Some(callback.from.clone());
    let (admitted, refusal) = let_in(store, chat_id, user_id, &from, now);
    if !admitted {
        return with_step(
            refusal,
            Step::Answer { callback_id: callback.id.clone(), text: copy("账号不可用"), alert: true },
        );
    }
    let data = match &callback.data {
        Some(data) => data.clone(),
        None => String::new(),
    };
    match after_prefix(data.as_str(), "m:") {
        Some(menu) => {
            let rest = handle_menu(store, env, chat_id, message_id, user_id, menu.as_str(), now);
            after_step(Step::Answer { callback_id: callback.id.clone(), text: copy(""), alert: false }, rest)
        },
        None => match tokens.get(data.as_str()) {
            None => only(
                Step::Answer {
                    callback_id: callback.id.clone(),
                    text: copy("按钮已过期（机器人重启过），请重新查询。"),
                    alert: true,
                },
            ),
            Some(action) => {
                let rest = on_action(store, env, chat_id, message_id, user_id, action, now);
                after_step(
                    Step::Answer { callback_id: callback.id.clone(), text: copy("查询中…"), alert: false },
                    rest,
                )
            },
        },
    }
}

/// What an update leads to: a message goes before the press of a button.
pub open spec fn update_plan(store: StoreModel, tokens: TokenModel, env: EnvModel, update: UpdateModel, now: u64) -> Plan {
    match (update.message, update.callback_query) {
        (Some(message), _) => message_plan(store, env, message, now),
        (None, Some(callback)) => callback_plan(store, tokens, env, callback, now),
        (None, None) => Plan { store: store, steps: Seq::empty() },
    }
}

/// Whom an update comes from.
pub open spec fn author_of(update: UpdateModel) -> Option<i64> {
    match (update.message, update.callback_query) {
        (Some(message), _) => Some(sender_of(message)),
        (None, Some(callback)) => Some(callback.from.id),
        (None, None) => None,
    }
}

/// Only the record of one user differs, if any does.
pub open spec fn only_user_changed(before: StoreModel, after: StoreModel, user_id: i64) -> bool {
    &&& after.settings == before.settings
    &&& forall|id: i64| #![trigger after.users.dom().contains(id)]
        id != user_id ==> after.users.dom().contains(id) == before.users.dom().contains(id)
    &&& forall|id: i64| #![trigger after.users[id]]
        id != user_id && before.users.dom().contains(id) ==> after.users[id] == before.users[id]
}

proof fn lemma_with_user_changes_one(store: StoreModel, user_id: i64, user: UserStateModel)
    ensures
        only_user_changed(store, with_user(store, user_id, user), user_id),
{
}

proof fn lemma_changes_add_up(a: StoreModel, b: StoreModel, c: StoreModel, user_id: i64)
    requires
        only_user_changed(a, b, user_id),
        only_user_changed(b, c, user_id),
    ensures
        only_user_changed(a, c, user_id),
{
    assert forall|id: i64| id != user_id implies #[trigger] c.users.dom().contains(id) == a.users.dom().contains(id) by {
        assert(b.users.dom().contains(id) == a.users.dom().contains(id));
    }
    assert forall|id: i64| id != user_id && a.users.dom().contains(id) implies #[trigger] c.users[id] == a.users[id] by {
        assert(b.users.dom().contains(id));
        assert(b.users[id] == a.users[id]);
    }
}

proof fn lemma_command_changes_one(
    store: StoreModel,
    env: EnvModel,
    chat_id: i64,
    user_id: i64,
    command: Seq<char>,
    argument: Seq<char>,
    now: u64,
)
    ensures
        only_user_changed(
            store,
            command_plan(store, env, chat_id, user_id, command, argument, now).store,
            user_id,
        ),
{
    let after = command_plan(store, env, chat_id, user_id, command, argument, now).store;
    assert(after == store || after == pending_store(store, user_id, Pending::Nothing, now) || after == pending_store(
        store,
        user_id,
        Pending::City,
        now,
    ) || after == pending_store(store, user_id, Pending::Line, now));
}

proof fn lemma_menu_changes_one(
    store: StoreModel,
    env: EnvModel,
    chat_id: i64,
    message_id: i64,
    user_id: i64,
    menu: Seq<char>,
    now: u64,
)
    ensures
        only_user_changed(store, menu_plan(store, env, chat_id, message_id, user_id, menu, now).store, user_id),
{
    let after = menu_plan(store, env, chat_id, message_id, user_id, menu, now).store;
    assert(after == store || after == pending_store(store, user_id, Pending::City, now) || after == pending_store(
        store,
        user_id,
        Pending::Line,
        now,
    ));
}

proof fn lemma_action_changes_one(
    store: StoreModel,
    env: EnvModel,
    chat_id: i64,
    message_id: i64,
    user_id: i64,
    action: ActionModel,
    now: u64,
)
    ensures
        only_user_changed(store, action_plan(store, env, chat_id, message_id, user_id, action, now).store, user_id),
{
    let user = seen(user_of(store.users, user_id), now);
    match action {
        ActionModel::FavRemove { service, direction, order } => {
            lemma_with_user_changes_one(store, user_id, without_favorite(user, service, direction, order));
        },
        ActionModel::SettingsAdjust { field, steps } => {
            lemma_with_user_changes_one(store, user_id, adjusted_user(store, user_id, field, steps, now));
        },
        ActionModel::SettingsReset => {
            lemma_with_user_changes_one(store, user_id, UserStateModel { alerts: None, ..user });
        },
        _ => {},
    }
}

proof fn lemma_message_changes_one(store: StoreModel, env: EnvModel, message: MessageModel, now: u64)
    ensures
        only_user_changed(store, message_plan(store, env, message, now).store, sender_of(message)),
{
    let chat_id = message.chat.id;
    let user_id = sender_of(message);
    let kept = admission(store, chat_id, user_id, message.from, now).1;
    let after = message_plan(store, env, message, now).store;
    assert(only_user_changed(store, kept, user_id));
    assert(only_user_changed(kept, after, user_id)) by {
        match (message.location, message.text) {
            (None, Some(text)) => {
                match command_of(trim(text)) {
                    Some((command, argument)) => {
                        lemma_command_changes_one(kept, env, chat_id, user_id, command, argument, now);
                    },
                    None => {
                        let rest = text_plan(kept, env, chat_id, user_id, trim(text), now).store;
                        assert(rest == kept || rest == pending_store(kept, user_id, Pending::Nothing, now) || rest
                            == pending_store(kept, user_id, Pending::City, now));
                    },
                }
            },
            _ => {},
        }
    }
    lemma_changes_add_up(store, kept, after, user_id);
}

proof fn lemma_callback_changes_one(
    store: StoreModel,
    tokens: TokenModel,
    env: EnvModel,
    callback: CallbackQueryModel,
    now: u64,
)
    ensures
        only_user_changed(store, callback_plan(store, tokens, env, callback, now).store, callback.from.id),
{
    let user_id = callback.from.id;
    match callback.message {
        None => {},
        Some(message) => {
            let chat_id = message.chat.id;
            let (admitted, kept, refusal) = admission(store, chat_id, user_id, Some(callback.from), now);
            let data = data_of(callback.data);
            assert(only_user_changed(store, kept, user_id));
            if admitted && begins(data, "m:"@) {
                let menu = data.skip("m:"@.len() as int);
                lemma_menu_changes_one(kept, env, chat_id, message.message_id, user_id, menu, now);
                let after = menu_plan(kept, env, chat_id, message.message_id, user_id, menu, now).store;
                lemma_changes_add_up(store, kept, after, user_id);
            } else if admitted && action_of(tokens, data) is Some {
                let action = action_of(tokens, data)->0;
                lemma_action_changes_one(kept, env, chat_id, message.message_id, user_id, action, now);
                let after = action_plan(kept, env, chat_id, message.message_id, user_id, action, now).store;
                lemma_changes_add_up(store, kept, after, user_id);
            }
        },
    }
}

/// Whatever a user sends or presses, the records of others and the settings of the bot stay as they are.
pub proof fn law_update_changes_only_its_author(
    store: StoreModel,
    tokens: TokenModel,
    env: EnvModel,
    update: UpdateModel,
    now: u64,
)
    ensures
        match author_of(update) {
            Some(id) => only_user_changed(store, update_plan(store, tokens, env, update, now).store, id),
            None => update_plan(store, tokens, env, update, now).store == store,
        },
{
    match (update.message, update.callback_query) {
        (Some(message), _) => lemma_message_changes_one(store, env, message, now),
        (None, Some(callback)) => lemma_callback_changes_one(store, tokens, env, callback, now),
        (None, None) => {},
    }
}

/// Whatever a banned user sends or presses, nothing is changed.
pub proof fn law_banned_user_changes_nothing(
    store: StoreModel,
    tokens: TokenModel,
    env: EnvModel,
    update: UpdateModel,
    now: u64,
)
    requires
        author_of(update) is Some,
        store.users.dom().contains(author_of(update)->0),
        store.users[author_of(update)->0].banned,
    ensures
        update_plan(store, tokens, env, update, now).store == store,
{
}

/// A button that was sent before the bot was started again is answered with a notice and does nothing
/// else: the new table of tokens knows none of the old ones.
pub proof fn law_restart_expires_buttons(
    store: StoreModel,
    env: EnvModel,
    callback: CallbackQueryModel,
    now: u64,
)
    requires
        callback.message is Some,
        admission(store, callback.message->0.chat.id, callback.from.id, Some(callback.from), now).0,
        !begins(data_of(callback.data), "m:"@),
    ensures
        ({
            let tokens = TokenModel { next: 0, actions: Map::empty(), order: Seq::empty() };
            callback_plan(store, tokens, env, callback, now).steps == seq![
                StepModel::Answer {
                    callback_id: callback.id,
                    text: "按钮已过期（机器人重启过），请重新查询。"@,
                    alert: true,
                },
            ]
        }),
{
}

/// Does what an update asks for.
pub fn handle(store: &mut Store, tokens: &TokenTable, env: &Env, update: &Update, now: u64) -> (r: Vec<Step>)
    requires
        clock_fits(now, env.tz_offset),
    ensures
        update_plan(old(store)@, tokens@, env@, update@, now) == (Plan { store: final(store)@, steps: Step::models(r@) }),
{
    match &update.message {
        Some(message) => handle_message(store, env, message, now),
        None => match &update.callback_query {
            Some(callback) => handle_callback(store, tokens, env, callback, now),
            None => no_steps(),
        },
    }
}

// ─── what is fetched comes back ───

/// The store after a page of arrivals was shown: with the query counted, where it counts as one.
pub open spec fn after_live(
    store: StoreModel,
    user_id: i64,
    d: LineDetailModel,
    service: Seq<char>,
    order: u32,
    record: bool,
    hour: u32,
    now: u64,
) -> StoreModel {
    let user = seen(user_of(store.users, user_id), now);
    with_user(
        store,
        user_id,
        if record {
            queried(
                user,
                service,
                d.name,
                d.direction_id,
                stop_label(d.topology.stations, order),
                order,
                hour,
                now,
            )
        } else {
            user
        },
    )
}

/// The page of arrivals, from what was fetched. A page that is only drawn again (`record` is false)
/// does not count as a query.
pub fn live_reply(
    store: &mut Store,
    env: &Env,
    user_id: i64,
    detail: &LineDetail,
    realtime: &RealTimeData,
    service: &str,
    order: u32,
    record: bool,
    now: u64,
) -> (r: Page)
    requires
        clock_fits(now, env.tz_offset),
    ensures
        final(store)@ == after_live(
            old(store)@,
            user_id,
            detail@,
            service@,
            order,
            record,
            hour_at(now, env@.tz_offset) as u32,
            now,
        ),
        r@ == live_page(
            detail@,
            realtime@,
            user_of(final(store)@.users, user_id),
            service@,
            order,
            clock_at(now, env@.tz_offset),
        ),
{
    let name = stop_name(detail.topology.stations.as_slice(), order);
    let mut user = store.touched(user_id, now);
    if record {
        user.record_query_at(
            service,
            detail.name.as_str(),
            detail.direction_id.as_str(),
            name.as_str(),
            order,
            local_hour(now, env.tz_offset),
            now,
        );
    }
    store.put(user_id, user.clone());
    live_view(detail, realtime, &user, service, order, local_clock(now, env.tz_offset).as_str())
}

/// The favourite that a button stands for, as far as the line is known.
pub open spec fn candidate_of(
    d: Option<LineDetailModel>,
    city_label: Option<Seq<char>>,
    service: Seq<char>,
    direction: Seq<char>,
    order: u32,
    now: u64,
) -> FavoriteModel {
    FavoriteModel {
        service: service,
        city_label: or_text(city_label, service),
        line_name: match d {
            Some(d) => d.name,
            None => direction,
        },
        direction: direction,
        station_name: match d {
            Some(d) => stop_label(d.topology.stations, order),
            None => "第 "@ + dec(order as nat) + " 站"@,
        },
        order: order,
        added_at: now,
        hits: 0,
        last_at: 0,
    }
}

/// The store after the button of a favourite was pressed.
pub open spec fn after_toggle(store: StoreModel, user_id: i64, candidate: FavoriteModel, now: u64) -> StoreModel {
    let user = seen(user_of(store.users, user_id), now);
    with_user(store, user_id, UserStateModel { favorites: toggled(user.favorites, candidate, now), ..user })
}

/// Pressing the button of a favourite is no query: after the change, and after the page was drawn again,
/// the habits and the number of queries are what they were.
pub proof fn law_favorite_is_no_query(
    store: StoreModel,
    user_id: i64,
    candidate: FavoriteModel,
    now: u64,
    d: LineDetailModel,
    service: Seq<char>,
    order: u32,
    hour: u32,
    later: u64,
)
    ensures
        ({
            let before = user_of(store.users, user_id);
            let changed = after_toggle(store, user_id, candidate, now);
            let user = user_of(after_live(changed, user_id, d, service, order, false, hour, later).users, user_id);
            &&& user.habits == before.habits
            &&& user.queries == before.queries
            &&& user.favorites == toggled(before.favorites, candidate, now)
        }),
{
}

/// The view of an optional line.
pub open spec fn opt_detail(d: Option<&LineDetail>) -> Option<LineDetailModel> {
    match d {
        Some(d) => Some(d@),
        None => None,
    }
}

/// Adds or removes a favourite, from what was fetched of the line.
pub fn toggle_reply(
    store: &mut Store,
    user_id: i64,
    detail: Option<&LineDetail>,
    service: &str,
    direction: &str,
    order: u32,
    now: u64,
) -> (r: bool)
    ensures
        ({
            let user = user_of(old(store)@.users, user_id);
            let candidate = candidate_of(opt_detail(detail), user.city_label, service@, direction@, order, now);
            &&& final(store)@ == after_toggle(old(store)@, user_id, candidate, now)
            &&& r == !crate::store::has_trip(user.favorites, service@, direction@, order)
        }),
{
    let mut user = store.touched(user_id, now);
    let (line_name, station_name) = match detail {
        Some(d) => (d.name.clone(), stop_name(d.topology.stations.as_slice(), order)),
        None => {
            let mut name = copy("第 ");
            name.append(decimal(order as u64).as_str());
            name.append(" 站");
            (copy(direction), name)
        },
    };
    let candidate = Favorite {
        service: copy(service),
        city_label: text_or(&user.city_label, service),
        line_name: line_name,
        direction: copy(direction),
        station_name: station_name,
        order: order,
        added_at: now,
        hits: 0,
        last_at: 0,
    };
    let r = user.toggle_favorite_at(candidate, now);
    store.put(user_id, user);
    r
}

/// What is said where a source did not deliver: its message, or that it took too long.
pub fn upstream_failure(error: Option<&str>) -> (r: String)
    ensures
        r@ == match error {
            Some(e) => "⚠️ 公交数据源暂时不可用："@ + e@,
            None => "⚠️ 公交数据源响应超时，请稍后重试。"@,
        },
{
    match error {
        Some(e) => {
            let mut t = copy("⚠️ 公交数据源暂时不可用：");
            t.append(e);
            t
        },
        None => copy("⚠️ 公交数据源响应超时，请稍后重试。"),
    }
}

/// Under what the stops of a line are kept.
pub fn detail_key(service: &str, direction: &str) -> (r: String)
    ensures
        r@ == service@ + "|"@ + direction@,
{
    let mut r = copy(service);
    r.append("|");
    r.append(direction);
    r
}

// ─── watches ───

/// What is kept after a watch has ended.
pub open spec fn watch_cleared(store: StoreModel, user_id: i64, now: u64) -> StoreModel {
    with_user(store, user_id, UserStateModel { watch: None, ..seen(user_of(store.users, user_id), now) })
}

/// The step that closes the card of a watch, where there is one.
pub open spec fn finish_step(watch: Option<WatchSpecModel>, reason: Seq<char>) -> Option<StepModel> {
    match watch {
        Some(w) => Some(
            StepModel::Edit { chat_id: w.chat_id, message_id: w.card_message_id, page: finished_page(w, reason) },
        ),
        None => None,
    }
}

/// The view of an optional step.
pub open spec fn opt_step(s: Option<Step>) -> Option<StepModel> {
    match s {
        Some(s) => Some(s@),
        None => None,
    }
}

/// Ends the watch of a user: the step that closes its card.
pub fn finish_watch(store: &mut Store, user_id: i64, reason: &str, now: u64) -> (r: Option<Step>)
    ensures
        final(store)@ == watch_cleared(old(store)@, user_id, now),
        opt_step(r) == finish_step(user_of(old(store)@.users, user_id).watch, reason@),
{
    let mut user = store.touched(user_id, now);
    let watch = user.watch.take();
    store.put(user_id, user);
    match watch {
        Some(spec) => {
            let page = finished_view(&spec, reason);
            Some(Step::Edit { chat_id: spec.chat_id, message_id: spec.card_message_id, page: page })
        },
        None => None,
    }
}

/// Stops the watch of a user from outside; `running` says whether one is under way. Whether there was
/// one, and the step that closes its card.
pub fn stop_watch(store: &mut Store, user_id: i64, running: bool, reason: &str, now: u64) -> (r: (bool, Option<Step>))
    ensures
        ({
            let watch = user_of(old(store)@.users, user_id).watch;
            &&& r.0 == (running || watch is Some)
            &&& final(store)@ == if r.0 {
                watch_cleared(old(store)@, user_id, now)
            } else {
                old(store)@
            }
            &&& opt_step(r.1) == finish_step(watch, reason@)
        }),
{
    if running || store.get(user_id).watch.is_some() {
        (true, finish_watch(store, user_id, reason, now))
    } else {
        (false, None)
    }
}

/// Stops the watch of a user who asked for it.
pub fn stop_by_user(
    store: &mut Store,
    user_id: i64,
    chat_id: i64,
    message_id: i64,
    running: bool,
    now: u64,
) -> (r: Vec<Step>)
    ensures
        ({
            let watch = user_of(old(store)@.users, user_id).watch;
            if !running && watch is None {
                &&& final(store)@ == old(store)@
                &&& Step::models(r@) == seq![
                    StepModel::Edit {
                        chat_id: chat_id,
                        message_id: message_id,
                        page: bare_page("当前没有进行中的盯车。"@),
                    },
                ]
            } else {
                &&& final(store)@ == watch_cleared(old(store)@, user_id, now)
                &&& Step::models(r@) == match finish_step(watch, "你手动停止了盯车。"@) {
                    Some(step) => seq![step],
                    None => Seq::empty(),
                }
            }
        }),
{
    let (had, step) = stop_watch(store, user_id, running, "你手动停止了盯车。", now);
    if !had {
        return only(
            Step::Edit { chat_id: chat_id, message_id: message_id, page: plain_page("当前没有进行中的盯车。") },
        );
    }
    match step {
        Some(step) => only(step),
        None => no_steps(),
    }
}

/// What is kept once a watch of a user has made room for a new one.
pub open spec fn after_replacing(store: StoreModel, user_id: i64, now: u64) -> StoreModel {
    if user_of(store.users, user_id).watch is Some {
        watch_cleared(store, user_id, now)
    } else {
        store
    }
}

/// What is kept once a user has begun a watch.
pub open spec fn watch_begun(store: StoreModel, user_id: i64, watch: WatchSpecModel, now: u64) -> StoreModel {
    with_user(store, user_id, UserStateModel { watch: Some(watch), ..seen(user_of(store.users, user_id), now) })
}

/// Makes room for a new watch: the one that there is ends. The step that closes its card.
pub fn replace_watch(store: &mut Store, user_id: i64, running: bool, now: u64) -> (r: Option<Step>)
    ensures
        ({
            let watch = user_of(old(store)@.users, user_id).watch;
            &&& final(store)@ == after_replacing(old(store)@, user_id, now)
            &&& opt_step(r) == finish_step(watch, "已被新的盯车任务替换。"@)
        }),
{
    if store.get(user_id).watch.is_some() {
        let (_, step) = stop_watch(store, user_id, running, "已被新的盯车任务替换。", now);
        step
    } else {
        None
    }
}

/// The name of the stop at which a watch can begin, or the page that says that the line does not have
/// it.
pub fn watch_stop_name(detail: &LineDetail, service: &str, order: u32) -> (r: Result<String, Page>)
    ensures
        ({
            let stops = detail@.topology.stations;
            let at = stop_index(stops, order);
            match r {
                Ok(name) => at < stops.len() && name@ == stops[at].name,
                Err(page) => at >= stops.len() && page@ == missing_stop_page(detail@, service@, order),
            }
        }),
{
    let stops = detail.topology.stations.as_slice();
    assert(LineStop::models(stops@).len() == stops@.len());
    let at: usize = find_stop(stops, order);
    if at < stops.len() {
        assert(LineStop::models(stops@)[at as int] == stops@[at as int]@);
        Ok(stops[at].name.clone())
    } else {
        Err(missing_stop_view(detail, service, order))
    }
}

/// A watch that begins.
pub open spec fn new_watch(
    user: UserStateModel,
    d: LineDetailModel,
    service: Seq<char>,
    station_name: Seq<char>,
    order: u32,
    chat_id: i64,
    card_message_id: i64,
    bus: Option<Seq<char>>,
    now: u64,
) -> WatchSpecModel {
    WatchSpecModel {
        service: service,
        city_label: or_text(user.city_label, service),
        line_name: d.name,
        direction: d.direction_id,
        station_name: station_name,
        order: order,
        chat_id: chat_id,
        card_message_id: card_message_id,
        target_bus: bus,
        started_at: now,
    }
}

/// Begins a watch, once its card was sent.
pub fn begin_watch(
    store: &mut Store,
    user_id: i64,
    detail: &LineDetail,
    service: &str,
    station_name: &str,
    order: u32,
    chat_id: i64,
    card_message_id: i64,
    bus: Option<String>,
    now: u64,
) -> (r: WatchSpec)
    ensures
        r@ == new_watch(
            user_of(old(store)@.users, user_id),
            detail@,
            service@,
            station_name@,
            order,
            chat_id,
            card_message_id,
            opt_view(bus),
            now,
        ),
        final(store)@ == watch_begun(old(store)@, user_id, r@, now),
{
    let mut user = store.touched(user_id, now);
    let spec = WatchSpec {
        service: copy(service),
        city_label: text_or(&user.city_label, service),
        line_name: detail.name.clone(),
        direction: detail.direction_id.clone(),
        station_name: copy(station_name),
        order: order,
        chat_id: chat_id,
        card_message_id: card_message_id,
        target_bus: bus,
        started_at: now,
    };
    user.watch = Some(spec.clone());
    store.put(user_id, user);
    spec
}

/// A watch has run out: it has lasted as long as it may.
pub open spec fn run_out(w: WatchSpecModel, alerts: AlertSettings, now: u64) -> bool {
    (if now >= w.started_at {
        now - w.started_at
    } else {
        0
    }) >= alerts.max_minutes * 60
}

/// Whether the watch of a user has run out by the time the bot starts again.
pub open spec fn stale(store: StoreModel, user_id: i64, now: u64) -> bool {
    store.users.dom().contains(user_id) && store.users[user_id].watch is Some && run_out(
        store.users[user_id].watch->0,
        alerts_of(store, user_id),
        now,
    )
}

/// What is kept after the watches that have run out were cleared.
pub open spec fn after_restore(store: StoreModel, now: u64) -> Map<i64, UserStateModel> {
    Map::new(
        |id: i64| store.users.dom().contains(id),
        |id: i64|
            if stale(store, id, now) {
                UserStateModel { watch: None, ..seen(store.users[id], now) }
            } else {
                store.users[id]
            },
    )
}

/// The watches that go on after the bot was started again; those that have run out are cleared.
#[verifier::loop_isolation(false)]
pub fn restore_watches(store: &mut Store, now: u64) -> (r: Vec<(i64, WatchSpec)>)
    ensures
        final(store)@.users == after_restore(old(store)@, now),
        final(store)@.settings == old(store)@.settings,
        final(store)@.dirty == (old(store)@.dirty || exists|id: i64| #[trigger] stale(old(store)@, id, now)),
        lists_watches(final(store)@.users, r@),
{
    let list = store.active_watches();
    let ghost start = store@;
    let ghost mut at: Seq<int> = Seq::empty();
    let mut r: Vec<(i64, WatchSpec)> = Vec::new();
    let mut i: usize = 0;
    while i < list.len()
        invariant
            i <= list@.len(),
            store@.settings == start.settings,
            store@.dirty == (start.dirty || exists|k: int| 0 <= k < i && stale(start, (#[trigger] list@[k]).0, now)),
            store@.users.dom() =~= start.users.dom(),
            forall|id: i64|
                start.users.dom().contains(id) ==> #[trigger] store@.users[id] == if stale(start, id, now) && (exists|
                    k: int,
                |
                    0 <= k < i && (#[trigger] list@[k]).0 == id) {
                    UserStateModel { watch: None, ..seen(start.users[id], now) }
                } else {
                    start.users[id]
                },
            at.len() == r@.len(),
            forall|j: int| 0 <= j < at.len() ==> 0 <= #[trigger] at[j] < i,
            forall|j: int|
                0 <= j < at.len() ==> list@[#[trigger] at[j]].0 == r@[j].0 && list@[at[j]].1@ == r@[j].1@ && !stale(
                    start,
                    r@[j].0,
                    now,
                ),
            forall|j: int, k: int| 0 <= j < k < at.len() ==> at[j] < at[k],
            forall|k: int|
                0 <= k < i && !stale(start, (#[trigger] list@[k]).0, now) ==> exists|j: int|
                    0 <= j < at.len() && at[j] == k,
        decreases list.len() - i,
    {
        let ghost before = store@;
        let ghost had = at;
        let user_id: i64 = list[i].0;
        assert(start.users.dom().contains(user_id));
        assert forall|k: int| 0 <= k < i implies (#[trigger] list@[k]).0 != user_id by {
            assert(list@[k].0 != list@[i as int].0);
        }
        assert(before.users[user_id] == start.users[user_id]);
        assert(alerts_of(before, user_id) == alerts_of(start, user_id));
        let alerts = store.alerts_for(user_id);
        assert(setting(alerts, AlertField::MaxMinutes) == alerts.max_minutes);
        if now.saturating_sub(list[i].1.started_at) >= alerts.max_minutes * 60 {
            assert(stale(start, list@[i as int].0, now));
            let mut user = store.touched(user_id, now);
            user.watch = None;
            store.put(user_id, user);
        } else {
            assert(!stale(start, user_id, now));
            r.push((user_id, list[i].1.clone()));
            proof {
                at = at.push(i as int);
            }
        }
        assert forall|id: i64| start.users.dom().contains(id) implies #[trigger] store@.users[id] == if stale(
            start,
            id,
            now,
        ) && (exists|k: int| 0 <= k < i + 1 && (#[trigger] list@[k]).0 == id) {
            UserStateModel { watch: None, ..seen(start.users[id], now) }
        } else {
            start.users[id]
        } by {
            assert(before.users[id] == before.users[id]);
            if id == user_id {
                assert(list@[i as int].0 == id);
            } else {
                if exists|k: int| 0 <= k < i + 1 && (#[trigger] list@[k]).0 == id {
                    let k = choose|k: int| 0 <= k < i + 1 && (#[trigger] list@[k]).0 == id;
                    assert(k < i);
                    assert(list@[k].0 == id);
                }
            }
        }
        assert forall|k: int| 0 <= k < i + 1 && !stale(start, (#[trigger] list@[k]).0, now) implies exists|j: int|
            0 <= j < at.len() && at[j] == k by {
            if k < i {
                let j = choose|j: int| 0 <= j < had.len() && had[j] == k;
                assert(at[j] == k);
            } else {
                assert(at[at.len() - 1] == k);
            }
        }
        i += 1;
    }
    proof {
        let users = store@.users;
        if exists|id: i64| #[trigger] stale(start, id, now) {
            let id = choose|id: i64| #[trigger] stale(start, id, now);
            let k = choose|k: int| 0 <= k < list@.len() && (#[trigger] list@[k]).0 == id;
            assert(stale(start, list@[k].0, now));
        }
        assert forall|id: i64| start.users.dom().contains(id) implies users[id] == after_restore(start, now)[id] by {
            if stale(start, id, now) {
                let k = choose|k: int| 0 <= k < list@.len() && (#[trigger] list@[k]).0 == id;
                assert(list@[k].0 == id);
            }
        }
        assert(users =~= after_restore(start, now));
        assert forall|j: int| 0 <= j < r@.len() implies users.dom().contains((#[trigger] r@[j]).0)
            && users[r@[j].0].watch == Some(r@[j].1@) by {
            let k = at[j];
            assert(list@[k].0 == r@[j].0);
            assert(start.users[list@[k].0].watch == Some(list@[k].1@));
        }
        assert forall|j: int, k: int| 0 <= j < k < r@.len() implies (#[trigger] r@[j]).0 != (#[trigger] r@[k]).0 by {
            assert(at[j] < at[k]);
            assert(list@[at[j]].0 != list@[at[k]].0);
        }
        assert forall|id: i64| #[trigger] users.dom().contains(id) && users[id].watch is Some implies exists|j: int|
            0 <= j < r@.len() && (#[trigger] r@[j]).0 == id by {
            assert(start.users[id].watch is Some);
            let k = choose|k: int| 0 <= k < list@.len() && (#[trigger] list@[k]).0 == id;
            let j = choose|j: int| 0 <= j < at.len() && at[j] == k;
            assert(r@[j].0 == id);
        }
    }
    r
}

/// A watch that has not run out is still there after the bot was started again.
pub proof fn law_running_watch_survives_restart(store: StoreModel, user_id: i64, now: u64)
    requires
        store.users.dom().contains(user_id),
        store.users[user_id].watch is Some,
        !run_out(store.users[user_id].watch->0, alerts_of(store, user_id), now),
    ensures
        after_restore(store, now)[user_id] == store.users[user_id],
{
}

// ─── taking updates in turn ───

/// From which update on to ask next.
pub fn next_offset(offset: i64, update_id: i64) -> (r: i64)
    requires
        update_id < i64::MAX,
    ensures
        r == if update_id + 1 > offset {
            update_id + 1
        } else {
            offset as int
        },
{
    if update_id + 1 > offset {
        update_id + 1
    } else {
        offset
    }
}

/// How many seconds to wait after a failure: what Telegram says, else what is due.
pub fn wait_secs(retry_after: Option<u64>, backoff: u64) -> (r: u64)
    ensures
        r == match retry_after {
            Some(secs) => secs,
            None => backoff,
        },
{
    match retry_after {
        Some(secs) => secs,
        None => backoff,
    }
}

/// How many seconds are due after the next failure: twice as many, at most thirty.
pub fn next_backoff(backoff: u64) -> (r: u64)
    ensures
        r == if backoff * 2 < 30 {
            (backoff * 2) as int
        } else {
            30
        },
{
    if backoff < 15 {
        backoff * 2
    } else {
        30
    }
}

// ─── set-up ───

/// The time zone that a setting asks for: from -12 to 14 hours, 8 for anything else.
pub open spec fn time_zone(value: Option<Seq<char>>) -> i64 {
    match value {
        Some(value) => match read_int(trim(value)) {
            Some(n) => if -12 <= n <= 14 {
                n as i64
            } else {
                8
            },
            None => 8,
        },
        None => 8,
    }
}

/// The time zone that a setting asks for.
pub fn parse_time_zone(value: &Option<String>) -> (r: i64)
    ensures
        r == time_zone(opt_view(*value)),
        -12 <= r <= 14,
{
    match value {
        Some(value) => match parse_i64(trimmed(value.as_str()).as_str()) {
            Some(n) => if -12 <= n && n <= 14 {
                n
            } else {
                8
            },
            None => 8,
        },
        None => 8,
    }
}

/// A setting without the white space around it; none where nothing is left.
pub fn setting_value(value: &Option<String>) -> (r: Option<String>)
    ensures
        opt_view(r) == match opt_view(*value) {
            Some(value) => if trim(value).len() == 0 {
                None
            } else {
                Some(trim(value))
            },
            None => None,
        },
{
    match value {
        Some(value) => {
            let t = trimmed(value.as_str());
            if t.as_str().is_empty() {
                None
            } else {
                Some(t)
            }
        },
        None => None,
    }
}

/// Whether the local time can be reckoned at `now`.
pub fn clock_is_sane(now: u64, tz_offset: i64) -> (r: bool)
    ensures
        r == clock_fits(now, tz_offset),
{
    let signed: i64 = crate::store::as_signed(now);
    let shift: i128 = (tz_offset as i128) * 3600;
    let sum: i128 = signed as i128 + shift;
    -0x8000_0000_0000_0000 <= shift && shift <= 0x7fff_ffff_ffff_ffff && -0x8000_0000_0000_0000 <= sum && sum
        <= 0x7fff_ffff_ffff_ffff
}

/// In every time zone that a setting can ask for the local time can be reckoned, for any time within
/// the next hundred billion years.
pub proof fn law_clock_is_sane(now: u64, value: Option<Seq<char>>)
    requires
        now <= 0x4000_0000_0000_0000,
    ensures
        clock_fits(now, time_zone(value)),
{
}

// ─── what commands and buttons do ───

/// A page is sent, and nothing else is done.
pub open spec fn just_sends(plan: Plan, store: StoreModel, chat_id: i64, page: PageModel) -> bool {
    plan.store == store && plan.steps.len() == 1 && plan.steps[0] == (StepModel::Send { chat_id: chat_id, page: page })
}

/// A page is put in the place of a message, and nothing else is done.
pub open spec fn just_edits(plan: Plan, store: StoreModel, chat_id: i64, message_id: i64, page: PageModel) -> bool {
    plan.store == store && plan.steps.len() == 1 && plan.steps[0] == (StepModel::Edit {
        chat_id: chat_id,
        message_id: message_id,
        page: page,
    })
}

/// A command answers with its page, in the chat that it came from; looking at a page changes nothing.
pub proof fn law_commands_show_their_pages(
    store: StoreModel,
    env: EnvModel,
    chat_id: i64,
    user_id: i64,
    argument: Seq<char>,
    now: u64,
)
    ensures
        ({
            let user = user_of(store.users, user_id);
            let hour = hour_at(now, env.tz_offset) as u32;
            let shared = user.alerts is None;
            &&& command_plan(store, env, chat_id, user_id, "start"@, argument, now).steps.len() == 1
            &&& command_plan(store, env, chat_id, user_id, "start"@, argument, now).steps[0] == (StepModel::Send {
                chat_id: chat_id,
                page: home_page(UserStateModel { pending: Pending::Nothing, ..seen(user, now) }, hour, env.miniapp_url),
            })
            &&& just_sends(command_plan(store, env, chat_id, user_id, "fav"@, argument, now), store, chat_id, favorites_page(user))
            &&& just_sends(command_plan(store, env, chat_id, user_id, "watch"@, argument, now), store, chat_id, watch_page(user, alerts_of(store, user_id).poll_secs))
            &&& just_sends(command_plan(store, env, chat_id, user_id, "settings"@, argument, now), store, chat_id, settings_page(alerts_of(store, user_id), shared))
            &&& just_sends(command_plan(store, env, chat_id, user_id, "habits"@, argument, now), store, chat_id, habits_page(user, hour))
            &&& just_sends(command_plan(store, env, chat_id, user_id, "app"@, argument, now), store, chat_id, panel_page(env.miniapp_url))
            &&& just_sends(command_plan(store, env, chat_id, user_id, "help"@, argument, now), store, chat_id, bare_page(HELP_TEXT@))
            &&& command_plan(store, env, chat_id, user_id, "nearby"@, argument, now) == location_plan(store, chat_id, user_id, now)
            &&& argument.len() > 0 ==> command_plan(store, env, chat_id, user_id, "city"@, argument, now) == cities_plan(
                store,
                env,
                chat_id,
                user_id,
                argument,
                0,
                None,
                now,
            )
            &&& argument.len() == 0 ==> user_of(command_plan(store, env, chat_id, user_id, "city"@, argument, now).store.users, user_id).pending is City
            &&& argument.len() > 0 && user.service is Some ==> command_plan(store, env, chat_id, user_id, "line"@, argument, now).steps.len() == 1 && command_plan(store, env, chat_id, user_id, "line"@, argument, now).steps[0]
                == (StepModel::Search { chat_id: chat_id, service: user.service->0, keyword: trim(argument), page: 0, edit: None })
            &&& argument.len() == 0 && user.service is Some ==> user_of(command_plan(store, env, chat_id, user_id, "line"@, argument, now).store.users, user_id).pending is Line
            &&& user.service is None ==> user_of(command_plan(store, env, chat_id, user_id, "line"@, argument, now).store.users, user_id).pending is City
            &&& user_of(command_plan(store, env, chat_id, user_id, "cancel"@, argument, now).store.users, user_id).pending is Nothing
        }),
{
    reveal_strlit("start");
    reveal_strlit("home");
    reveal_strlit("help");
    reveal_strlit("city");
    reveal_strlit("cities");
    reveal_strlit("line");
    reveal_strlit("search");
    reveal_strlit("bus");
    reveal_strlit("nearby");
    reveal_strlit("near");
    reveal_strlit("fav");
    reveal_strlit("favs");
    reveal_strlit("favorites");
    reveal_strlit("favourite");
    reveal_strlit("watch");
    reveal_strlit("watching");
    reveal_strlit("settings");
    reveal_strlit("setting");
    reveal_strlit("alerts");
    reveal_strlit("app");
    reveal_strlit("panel");
    reveal_strlit("habits");
    reveal_strlit("stats");
    reveal_strlit("me");
    reveal_strlit("cancel");
    assert("start"@.len() == 5 && "start"@[0] == 's' && "start"@[1] == 't');
    assert("home"@.len() == 4 && "home"@[0] == 'h' && "home"@[1] == 'o');
    assert("help"@.len() == 4 && "help"@[0] == 'h' && "help"@[1] == 'e');
    assert("city"@.len() == 4 && "city"@[0] == 'c' && "city"@[1] == 'i');
    assert("cities"@.len() == 6 && "cities"@[0] == 'c' && "cities"@[1] == 'i');
    assert("line"@.len() == 4 && "line"@[0] == 'l' && "line"@[1] == 'i');
    assert("search"@.len() == 6 && "search"@[0] == 's' && "search"@[1] == 'e');
    assert("bus"@.len() == 3 && "bus"@[0] == 'b' && "bus"@[1] == 'u');
    assert("nearby"@.len() == 6 && "nearby"@[0] == 'n' && "nearby"@[1] == 'e');
    assert("near"@.len() == 4 && "near"@[0] == 'n' && "near"@[1] == 'e');
    assert("fav"@.len() == 3 && "fav"@[0] == 'f' && "fav"@[1] == 'a');
    assert("favs"@.len() == 4 && "favs"@[0] == 'f' && "favs"@[1] == 'a');
    assert("favorites"@.len() == 9 && "favorites"@[0] == 'f' && "favorites"@[1] == 'a');
    assert("favourite"@.len() == 9 && "favourite"@[0] == 'f' && "favourite"@[1] == 'a');
    assert("watch"@.len() == 5 && "watch"@[0] == 'w' && "watch"@[1] == 'a');
    assert("watching"@.len() == 8 && "watching"@[0] == 'w' && "watching"@[1] == 'a');
    assert("settings"@.len() == 8 && "settings"@[0] == 's' && "settings"@[1] == 'e');
    assert("setting"@.len() == 7 && "setting"@[0] == 's' && "setting"@[1] == 'e');
    assert("alerts"@.len() == 6 && "alerts"@[0] == 'a' && "alerts"@[1] == 'l');
    assert("app"@.len() == 3 && "app"@[0] == 'a' && "app"@[1] == 'p');
    assert("panel"@.len() == 5 && "panel"@[0] == 'p' && "panel"@[1] == 'a');
    assert("habits"@.len() == 6 && "habits"@[0] == 'h' && "habits"@[1] == 'a');
    assert("stats"@.len() == 5 && "stats"@[0] == 's' && "stats"@[1] == 't');
    assert("me"@.len() == 2 && "me"@[0] == 'm' && "me"@[1] == 'e');
    assert("cancel"@.len() == 6 && "cancel"@[0] == 'c' && "cancel"@[1] == 'a');
}

/// A button of the menu puts its page in the place of the message that it stands under.
pub proof fn law_menu_shows_its_pages(
    store: StoreModel,
    env: EnvModel,
    chat_id: i64,
    message_id: i64,
    user_id: i64,
    now: u64,
)
    ensures
        ({
            let user = user_of(store.users, user_id);
            let hour = hour_at(now, env.tz_offset) as u32;
            let shared = user.alerts is None;
            &&& just_edits(menu_plan(store, env, chat_id, message_id, user_id, "home"@, now), store, chat_id, message_id, home_page(user, hour, env.miniapp_url))
            &&& just_edits(menu_plan(store, env, chat_id, message_id, user_id, "fav"@, now), store, chat_id, message_id, favorites_page(user))
            &&& just_edits(menu_plan(store, env, chat_id, message_id, user_id, "watch"@, now), store, chat_id, message_id, watch_page(user, alerts_of(store, user_id).poll_secs))
            &&& just_edits(menu_plan(store, env, chat_id, message_id, user_id, "settings"@, now), store, chat_id, message_id, settings_page(alerts_of(store, user_id), shared))
            &&& just_edits(menu_plan(store, env, chat_id, message_id, user_id, "habit"@, now), store, chat_id, message_id, habits_page(user, hour))
            &&& menu_plan(store, env, chat_id, message_id, user_id, "nearby"@, now) == location_plan(store, chat_id, user_id, now)
            &&& user_of(menu_plan(store, env, chat_id, message_id, user_id, "city"@, now).store.users, user_id).pending is City
            &&& user_of(menu_plan(store, env, chat_id, message_id, user_id, "search"@, now).store.users, user_id).pending is Line
        }),
{
    reveal_strlit("home");
    reveal_strlit("fav");
    reveal_strlit("habit");
    reveal_strlit("city");
    reveal_strlit("search");
    reveal_strlit("nearby");
    reveal_strlit("settings");
    reveal_strlit("watch");
    reveal_strlit("help");
    assert("home"@.len() == 4 && "home"@[0] == 'h' && "home"@[1] == 'o');
    assert("fav"@.len() == 3 && "fav"@[0] == 'f' && "fav"@[1] == 'a');
    assert("habit"@.len() == 5 && "habit"@[0] == 'h' && "habit"@[1] == 'a');
    assert("city"@.len() == 4 && "city"@[0] == 'c' && "city"@[1] == 'i');
    assert("search"@.len() == 6 && "search"@[0] == 's' && "search"@[1] == 'e');
    assert("nearby"@.len() == 6 && "nearby"@[0] == 'n' && "nearby"@[1] == 'e');
    assert("settings"@.len() == 8 && "settings"@[0] == 's' && "settings"@[1] == 'e');
    assert("watch"@.len() == 5 && "watch"@[0] == 'w' && "watch"@[1] == 'a');
    assert("help"@.len() == 4 && "help"@[0] == 'h' && "help"@[1] == 'e');
}

/// A button about a line at a stop is about that line at that stop: its live data, its stops, its favourite, its
/// watch. It is carried out where it was pressed and for whoever pressed it.
pub proof fn law_buttons_mean_their_line_and_stop(
    store: StoreModel,
    env: EnvModel,
    chat_id: i64,
    message_id: i64,
    user_id: i64,
    service: Seq<char>,
    direction: Seq<char>,
    order: u32,
    page: usize,
    bus: Option<Seq<char>>,
    now: u64,
)
    ensures
        ({
            let plan = |action: ActionModel| action_plan(store, env, chat_id, message_id, user_id, action, now);
            let does = |action: ActionModel, step: StepModel| plan(action).store == store && plan(action).steps == seq![step];
            &&& does(
                ActionModel::Live { service: service, direction: direction, order: order },
                StepModel::Live {
                    chat_id: chat_id,
                    message_id: message_id,
                    user_id: user_id,
                    service: service,
                    direction: direction,
                    order: order,
                    record: true,
                },
            )
            &&& does(
                ActionModel::Line { service: service, direction: direction, page: page },
                StepModel::Line {
                    chat_id: chat_id,
                    message_id: message_id,
                    user_id: user_id,
                    service: service,
                    direction: direction,
                    page: page,
                },
            )
            &&& does(
                ActionModel::WatchSetup { service: service, direction: direction, order: order },
                StepModel::WatchSetup {
                    chat_id: chat_id,
                    message_id: message_id,
                    service: service,
                    direction: direction,
                    order: order,
                },
            )
            &&& does(
                ActionModel::WatchStart { service: service, direction: direction, order: order, bus: bus },
                StepModel::WatchStart {
                    user_id: user_id,
                    chat_id: chat_id,
                    service: service,
                    direction: direction,
                    order: order,
                    bus: bus,
                },
            )
            &&& does(
                ActionModel::WatchStop,
                StepModel::WatchStop { user_id: user_id, chat_id: chat_id, message_id: message_id },
            )
            &&& plan(ActionModel::FavToggle { service: service, direction: direction, order: order }).steps.len() == 2
            &&& plan(ActionModel::FavToggle { service: service, direction: direction, order: order }).steps[0]
                == (StepModel::Toggle { user_id: user_id, service: service, direction: direction, order: order })
            &&& plan(ActionModel::FavToggle { service: service, direction: direction, order: order }).steps[1] == (StepModel::Live {
                chat_id: chat_id,
                message_id: message_id,
                user_id: user_id,
                service: service,
                direction: direction,
                order: order,
                record: false,
            })
        }),
{
}

/// The button that removes a favourite removes that line at that stop and no other, and shows what is left.
pub proof fn law_removed_favorite_is_gone(
    store: StoreModel,
    env: EnvModel,
    chat_id: i64,
    message_id: i64,
    user_id: i64,
    f: FavoriteModel,
    other: FavoriteModel,
    now: u64,
)
    requires
        trips_differ(user_of(store.users, user_id).favorites),
    ensures
        ({
            let plan = action_plan(
                store,
                env,
                chat_id,
                message_id,
                user_id,
                ActionModel::FavRemove { service: f.service, direction: f.direction, order: f.order },
                now,
            );
            let before = user_of(store.users, user_id).favorites;
            let after = user_of(plan.store.users, user_id).favorites;
            &&& forall|k: int|
                0 <= k < after.len() ==> !((#[trigger] after[k]).service == f.service && after[k].direction == f.direction && after[k].order
                    == f.order)
            &&& !is_trip(other, f.service, f.direction, f.order) ==> before.contains(other) == after.contains(other)
            &&& plan.steps == seq![
                StepModel::Edit {
                    chat_id: chat_id,
                    message_id: message_id,
                    page: favorites_page(user_of(plan.store.users, user_id)),
                },
            ]
        }),
{
    let before = user_of(store.users, user_id).favorites;
    let p = |g: FavoriteModel| is_trip(g, f.service, f.direction, f.order);
    lemma_first_where_is(before, p);
    let at = trip_index(before, f.service, f.direction, f.order);
    if at < before.len() {
        let after = before.remove(at);
        assert(p(before[at]));
        assert forall|k: int| 0 <= k < after.len() implies !p(#[trigger] after[k]) by {
            let j = if k < at { k } else { k + 1 };
            assert(after[k] == before[j]);
            if k >= at {
                assert(!is_trip(before[j], before[at].service, before[at].direction, before[at].order));
            }
        }
        if before.contains(other) && !p(other) {
            let k = choose|k: int| 0 <= k < before.len() && before[k] == other;
            if k < at {
                assert(after[k] == other);
            } else {
                assert(after[k - 1] == other);
            }
        }
        if after.contains(other) {
            let k = choose|k: int| 0 <= k < after.len() && after[k] == other;
            assert(before[if k < at { k } else { k + 1 }] == other);
        }
    } else {
        assert forall|k: int| 0 <= k < before.len() implies !p(#[trigger] before[k]) by {}
    }
}

/// Choosing a city makes it the city of whoever chose it, and ends the question for one.
pub proof fn law_chosen_city_is_kept(
    store: StoreModel,
    env: EnvModel,
    chat_id: i64,
    message_id: i64,
    user_id: i64,
    service: Seq<char>,
    label: Seq<char>,
    now: u64,
)
    ensures
        ({
            let plan = action_plan(
                store,
                env,
                chat_id,
                message_id,
                user_id,
                ActionModel::PickService { service: service, label: label },
                now,
            );
            let (before, after) = (user_of(store.users, user_id), user_of(plan.store.users, user_id));
            &&& after.service == Some(service) && after.city_label == Some(label) && after.pending is Nothing
            &&& after.favorites == before.favorites && after.habits == before.habits && after.watch == before.watch && after.alerts
                == before.alerts
            &&& plan.steps.len() == 1 && plan.steps[0] is Edit && has(plan.steps[0]->Edit_page.text, escaped(label))
        }),
{
    broadcast use group_has;

}

/// The user's own settings, or the defaults.
pub open spec fn own_or_default(store: StoreModel, user_id: i64) -> AlertSettings {
    match user_of(store.users, user_id).alerts {
        Some(own) => own,
        None => store.settings.defaults,
    }
}

/// A press on the page of settings changes that setting by so many steps within its range, from the user's own
/// value or the default, and nothing else.
pub proof fn law_settings_are_changed_by_steps(
    store: StoreModel,
    user_id: i64,
    field: AlertField,
    other: AlertField,
    now: u64,
)
    requires
        in_limits(own_or_default(store, user_id)),
    ensures
        ({
            let more = with_user(store, user_id, adjusted_user(store, user_id, field, 1, now));
            let less = with_user(store, user_id, adjusted_user(store, user_id, field, -1i64, now));
            let was = setting(alerts_of(store, user_id), field);
            &&& was + field_step(field) <= field_range(field).1 ==> setting(alerts_of(more, user_id), field) == was + field_step(field)
            &&& was - field_step(field) >= field_range(field).0 ==> setting(alerts_of(less, user_id), field) == was - field_step(field)
            &&& setting(alerts_of(more, user_id), field) >= was && setting(alerts_of(less, user_id), field) <= was
            &&& other != field ==> setting(alerts_of(more, user_id), other) == setting(alerts_of(store, user_id), other)
            &&& more.settings == store.settings && less.settings == store.settings
        }),
{
    let own = own_or_default(store, user_id);
    let (up_to, down_to) = (stepped(own, field, 1), stepped(own, field, -1i64));
    let up = with_setting(own, field, up_to);
    let down = with_setting(own, field, down_to);
    lemma_set_in_limits(own, field, up_to);
    lemma_set_in_limits(own, field, down_to);
    law_limited_settings_stay(own);
    law_limited_settings_stay(up);
    law_limited_settings_stay(down);
    law_steps_raise_and_lower(own, field);
    law_setting_one_keeps_the_rest(own, field, up_to, other);
    law_setting_one_keeps_the_rest(own, field, down_to, other);
    assert(field_range(field).0 <= setting(own, field) <= field_range(field).1);
}

proof fn lemma_set_in_limits(own: AlertSettings, field: AlertField, value: int)
    requires
        in_limits(own),
    ensures
        in_limits(with_setting(own, field, value)),
{
    assert forall|g: AlertField| field_range(g).0 <= #[trigger] setting(with_setting(own, field, value), g) <= field_range(g).1 by {
        assert(field_range(g).0 <= setting(own, g) <= field_range(g).1);
        law_setting_one_keeps_the_rest(own, field, value, g);
    }
}

/// The buttons of the page of settings change what is kept of whoever presses them and show the page again; the reset
/// goes back to the defaults.
pub proof fn law_settings_buttons_change_settings(
    store: StoreModel,
    env: EnvModel,
    chat_id: i64,
    message_id: i64,
    user_id: i64,
    field: AlertField,
    steps: i64,
    now: u64,
)
    ensures
        action_plan(store, env, chat_id, message_id, user_id, ActionModel::SettingsAdjust { field: field, steps: steps }, now).store
            == with_user(store, user_id, adjusted_user(store, user_id, field, steps, now)),
        user_of(
            action_plan(store, env, chat_id, message_id, user_id, ActionModel::SettingsReset, now).store.users,
            user_id,
        ).alerts is None,
        alerts_of(action_plan(store, env, chat_id, message_id, user_id, ActionModel::SettingsReset, now).store, user_id)
            == all_limited(store.settings.defaults),
{
}

/// The last position is used again where there is one, and asked for where there is none.
pub proof fn law_last_position_is_used_again(
    store: StoreModel,
    env: EnvModel,
    chat_id: i64,
    message_id: i64,
    user_id: i64,
    now: u64,
)
    ensures
        ({
            let user = user_of(store.users, user_id);
            let steps = action_plan(store, env, chat_id, message_id, user_id, ActionModel::NearbyHere, now).steps;
            &&& user.service is Some && user.last_location is Some ==> steps == seq![
                StepModel::Nearby {
                    chat_id: chat_id,
                    edit: Some(message_id),
                    service: user.service->0,
                    lat: user.last_location->0.lat,
                    lng: user.last_location->0.lng,
                },
            ]
            &&& user.service is None || user.last_location is None ==> steps.len() == 1 && steps[0] is Edit
        }),
{
}

/// A position that was sent is kept, and the stops near it are looked up in the city of whoever sent it.
pub proof fn law_sent_position_is_looked_up(
    store: StoreModel,
    chat_id: i64,
    user_id: i64,
    location: Location,
    at: GeoPoint,
    now: u64,
)
    requires
        user_of(store.users, user_id).service is Some,
        location.latitude.is_finite(),
        location.longitude.is_finite(),
    ensures
        ({
            let service = user_of(store.users, user_id).service->0;
            let first = on_location_plan(store, chat_id, user_id, location, now);
            let second = converted_plan(first.store, chat_id, user_id, service, at, now);
            &&& first.steps == seq![
                StepModel::Convert {
                    chat_id: chat_id,
                    user_id: user_id,
                    service: service,
                    latitude: location.latitude,
                    longitude: location.longitude,
                },
            ]
            &&& user_of(second.store.users, user_id).last_location == Some(at)
            &&& second.steps.last() == (StepModel::Nearby {
                chat_id: chat_id,
                edit: None,
                service: service,
                lat: at.lat,
                lng: at.lng,
            })
        }),
{
}

/// A text that is no command is what was asked for: a city while one is asked for, and else a line in the city of
/// whoever sent it.
pub proof fn law_text_is_searched_for(store: StoreModel, env: EnvModel, chat_id: i64, user_id: i64, text: Seq<char>, now: u64)
    ensures
        ({
            let user = user_of(store.users, user_id);
            let plan = text_plan(store, env, chat_id, user_id, text, now);
            &&& user.pending is City ==> plan.steps == seq![
                StepModel::Send { chat_id: chat_id, page: cities_page(matching_cities(env.services, trim(text)), trim(text), 0) },
            ]
            &&& !(user.pending is City) && user.service is Some ==> plan.steps == seq![
                StepModel::Search { chat_id: chat_id, service: user.service->0, keyword: trim(text), page: 0, edit: None },
            ]
            &&& !(user.pending is City) && user.service is None ==> user_of(plan.store.users, user_id).pending is City
        }),
{
}

/// A watch is for the line, the stop and the vehicle that were chosen, from the time at which it began, and it is
/// the only one of the user: one that was under way is over, and its card says so.
pub proof fn law_begun_watch_is_the_chosen_one(
    store: StoreModel,
    user_id: i64,
    d: LineDetailModel,
    service: Seq<char>,
    station_name: Seq<char>,
    order: u32,
    chat_id: i64,
    card_message_id: i64,
    bus: Option<Seq<char>>,
    now: u64,
)
    ensures
        ({
            let room = after_replacing(store, user_id, now);
            let w = new_watch(
                user_of(room.users, user_id),
                d,
                service,
                station_name,
                order,
                chat_id,
                card_message_id,
                bus,
                now,
            );
            let after = watch_begun(room, user_id, w, now);
            &&& user_of(room.users, user_id).watch is None
            &&& user_of(after.users, user_id).watch == Some(w)
            &&& w.service == service && w.line_name == d.name && w.direction == d.direction_id && w.station_name == station_name
                && w.order == order && w.target_bus == bus && w.started_at == now && w.chat_id == chat_id && w.card_message_id
                == card_message_id
            &&& user_of(after.users, user_id).favorites == user_of(store.users, user_id).favorites
            &&& user_of(store.users, user_id).city_label is Some ==> w.city_label == user_of(store.users, user_id).city_label->0
            &&& user_of(store.users, user_id).city_label is None ==> w.city_label == service
        }),
        user_of(store.users, user_id).watch is Some ==> ({
            let was = user_of(store.users, user_id).watch->0;
            let step = finish_step(Some(was), "已被新的盯车任务替换。"@);
            &&& step is Some && step->0 is Edit && step->0->Edit_chat_id == was.chat_id && step->0->Edit_message_id
                == was.card_message_id
            &&& has(step->0->Edit_page.text, escaped("已被新的盯车任务替换。"@))
        }),
{
    broadcast use group_has;

}

/// A watch that is found after a restart has run out exactly when the set number of minutes has gone by since it
/// began; then it is over, and all others stay.
pub proof fn law_watches_run_out_at_the_set_time(store: StoreModel, user_id: i64, now: u64)
    requires
        store.users.dom().contains(user_id),
        store.users[user_id].watch is Some,
        store.users[user_id].watch->0.started_at <= now,
    ensures
        ({
            let w = store.users[user_id].watch->0;
            let over = w.started_at + alerts_of(store, user_id).max_minutes * 60 <= now;
            &&& after_restore(store, now).dom().contains(user_id)
            &&& over ==> after_restore(store, now)[user_id].watch is None
            &&& !over ==> after_restore(store, now)[user_id] == store.users[user_id]
            &&& after_restore(store, now)[user_id].favorites == store.users[user_id].favorites
        }),
{
}

/// The time zone is the number that is set where it is one from twelve hours behind to fourteen ahead of Greenwich,
/// and else eight hours ahead.
pub proof fn law_time_zone_is_what_is_set(value: Seq<char>, n: int)
    ensures
        read_int(trim(value)) == Some(n) && -12 <= n <= 14 ==> time_zone(Some(value)) == n,
        read_int(trim(value)) == Some(n) && !(-12 <= n <= 14) ==> time_zone(Some(value)) == 8,
        read_int(trim(value)) is None ==> time_zone(Some(value)) == 8,
        time_zone(None) == 8,
{
}

/// A favourite is the line at the stop that was looked at, by their names, in the city of the user.
pub proof fn law_favorite_is_what_was_looked_at(
    store: StoreModel,
    user_id: i64,
    d: LineDetailModel,
    service: Seq<char>,
    order: u32,
    now: u64,
    at: int,
)
    requires
        0 <= at < d.topology.stations.len(),
        d.topology.stations[at].order == order,
        forall|k: int| 0 <= k < at ==> (#[trigger] d.topology.stations[k]).order != order,
        !has_trip(user_of(store.users, user_id).favorites, service, d.direction_id, order),
    ensures
        ({
            let user = user_of(store.users, user_id);
            let f = candidate_of(Some(d), user.city_label, service, d.direction_id, order, now);
            let after = user_of(after_toggle(store, user_id, f, now).users, user_id).favorites;
            &&& after == user.favorites.push(f)
            &&& f.service == service && f.direction == d.direction_id && f.order == order && f.line_name == d.name && f.station_name
                == d.topology.stations[at].name && f.hits == 0 && f.added_at == now
            &&& user.city_label is Some ==> f.city_label == user.city_label->0
        }),
{
    lemma_first_where(d.topology.stations, |s: LineStopModel| s.order == order, at);
}

/// A press of a button is answered and then carried out: the part of the menu that it names, or the action that it was
/// issued for, by whoever pressed it and under the message that it stands under.
pub proof fn law_button_press_is_carried_out(
    store: StoreModel,
    tokens: TokenModel,
    env: EnvModel,
    callback: CallbackQueryModel,
    now: u64,
    part: Seq<char>,
)
    requires
        callback.message is Some,
        callback.data is Some,
        admission(store, callback.message->0.chat.id, callback.from.id, Some(callback.from), now).0,
    ensures
        ({
            let plan = callback_plan(store, tokens, env, callback, now);
            let kept = admission(store, callback.message->0.chat.id, callback.from.id, Some(callback.from), now).1;
            let data = callback.data->0;
            let chat_id = callback.message->0.chat.id;
            let message_id = callback.message->0.message_id;
            let menu = menu_plan(kept, env, chat_id, message_id, callback.from.id, part, now);
            &&& plan.steps.len() >= 1 && plan.steps[0] is Answer && plan.steps[0]->Answer_callback_id == callback.id
            &&& data == "m:"@ + part ==> plan.store == menu.store && plan.steps.skip(1) == menu.steps
            &&& !begins(data, "m:"@) && action_of(tokens, data) is Some ==> ({
                let rest = action_plan(kept, env, chat_id, message_id, callback.from.id, action_of(tokens, data)->0, now);
                plan.store == rest.store && plan.steps.skip(1) == rest.steps
            })
            &&& !begins(data, "m:"@) && action_of(tokens, data) is None ==> plan.store == kept && plan.steps.len() == 1
        }),
{
    let plan = callback_plan(store, tokens, env, callback, now);
    let kept = admission(store, callback.message->0.chat.id, callback.from.id, Some(callback.from), now).1;
    let data = callback.data->0;
    let chat_id = callback.message->0.chat.id;
    let message_id = callback.message->0.message_id;
    reveal_strlit("m:");
    if data == "m:"@ + part {
        assert(data.subrange(0, 2) =~= "m:"@);
        assert(data.skip(2) =~= part);
        let menu = menu_plan(kept, env, chat_id, message_id, callback.from.id, part, now);
        assert(plan.steps.skip(1) =~= menu.steps);
    } else if !begins(data, "m:"@) && action_of(tokens, data) is Some {
        let rest = action_plan(kept, env, chat_id, message_id, callback.from.id, action_of(tokens, data)->0, now);
        assert(plan.steps.skip(1) =~= rest.steps);
    }
}

/// A message is taken for what it is: a position, a command with what follows it, or a text. Whoever sends it is let in
/// first, and their name is kept.
pub proof fn law_message_is_taken_for_what_it_is(store: StoreModel, env: EnvModel, message: MessageModel, now: u64)
    requires
        admission(store, message.chat.id, sender_of(message), message.from, now).0,
    ensures
        ({
            let plan = message_plan(store, env, message, now);
            let kept = admission(store, message.chat.id, sender_of(message), message.from, now).1;
            let (chat_id, user_id) = (message.chat.id, sender_of(message));
            &&& message.location is Some ==> plan == on_location_plan(kept, chat_id, user_id, message.location->0, now)
            &&& message.location is None && message.text is Some && trim(message.text->0).len() > 0 ==> ({
                let text = trim(message.text->0);
                &&& command_of(text) matches Some((command, argument)) ==> plan == command_plan(
                    kept,
                    env,
                    chat_id,
                    user_id,
                    command,
                    argument,
                    now,
                )
                &&& command_of(text) is None ==> plan == text_plan(kept, env, chat_id, user_id, text, now)
            })
            &&& message.from matches Some(from) ==> user_of(kept.users, user_id).display_name == from.first_name && user_of(
                kept.users,
                user_id,
            ).username == from.username && user_id == from.id
            &&& message.from is None ==> user_id == chat_id
        }),
{
}

/// A command is the word behind the slash, without the name of the bot, and what follows the word is its argument.
pub proof fn law_command_is_word_and_argument(word: Seq<char>, bot: Seq<char>, argument: Seq<char>)
    requires
        word.len() > 0,
        forall|i: int| 0 <= i < word.len() ==> !is_space(#[trigger] word[i]) && word[i] != '@',
        forall|i: int| 0 <= i < bot.len() ==> !is_space(#[trigger] bot[i]),
    ensures
        command_parts(seq!['/'] + word) == Some((word, ""@)),
        command_parts(seq!['/'] + word + seq![' '] + argument) == Some((word, trim(argument))),
        command_parts(seq!['/'] + word + seq!['@'] + bot + seq![' '] + argument) == Some((word, trim(argument))),
        command_parts(word) is None || word[0] == '/',
{
    let p = |c: char| is_space(c);
    let n = word.len() as int;
    let a = seq!['/'] + word;
    assert(a.skip(1) =~= word);
    lemma_first_where(word, p, n);
    lemma_first_of(word, '@', n);
    assert(word.take(n) =~= word);
    let b = seq!['/'] + word + seq![' '] + argument;
    let rest = b.skip(1);
    assert(rest =~= word + seq![' '] + argument);
    assert forall|j: int| 0 <= j < n implies !p(#[trigger] rest[j]) by {
        assert(rest[j] == word[j]);
    }
    assert(rest[n] == ' ');
    lemma_first_where(rest, p, n);
    assert(rest.take(n) =~= word);
    assert(rest.skip(n + 1) =~= argument);
    let c = seq!['/'] + word + seq!['@'] + bot + seq![' '] + argument;
    let tail = c.skip(1);
    let head = word + seq!['@'] + bot;
    let m = head.len() as int;
    assert(tail =~= head + seq![' '] + argument);
    assert forall|j: int| 0 <= j < m implies !p(#[trigger] tail[j]) by {
        if j < n {
            assert(tail[j] == word[j]);
        } else if j > n {
            assert(tail[j] == bot[j - n - 1]);
        } else {
            assert(tail[j] == '@');
        }
    }
    assert(tail[m] == ' ');
    lemma_first_where(tail, p, m);
    assert(tail.take(m) =~= head);
    assert(tail.skip(m + 1) =~= argument);
    assert forall|j: int| 0 <= j < n implies #[trigger] head[j] != '@' by {
        assert(head[j] == word[j]);
    }
    lemma_first_of(head, '@', n);
    assert(head.take(n) =~= word);
}

/// Stops nearby are looked up in a city: without one it is asked for, else the position is, and the last one is offered
/// where there is one.
pub proof fn law_position_is_asked_for(store: StoreModel, chat_id: i64, user_id: i64, now: u64)
    ensures
        ({
            let user = user_of(store.users, user_id);
            let plan = location_plan(store, chat_id, user_id, now);
            &&& user.service is None ==> user_of(plan.store.users, user_id).pending is City
            &&& user.service is Some ==> plan.store == store && plan.steps.last() is Send && plan.steps.last()->Send_page.board is Location
                && plan.steps.last()->Send_chat_id == chat_id
            &&& user.service is Some && user.last_location is Some ==> plan.steps.len() == 2 && plan.steps[0] == (StepModel::Send {
                chat_id: chat_id,
                page: last_place_page(),
            })
            &&& user.service is Some && user.last_location is None ==> plan.steps.len() == 1
        }),
{
}

/// Looking at live data is a query of that line at that stop, by its name, in that hour; looking again after a change of
/// a favourite is none.
pub proof fn law_look_is_a_query(
    store: StoreModel,
    user_id: i64,
    d: LineDetailModel,
    service: Seq<char>,
    order: u32,
    hour: u32,
    now: u64,
    at: int,
)
    requires
        0 <= at < d.topology.stations.len(),
        d.topology.stations[at].order == order,
        forall|k: int| 0 <= k < at ==> (#[trigger] d.topology.stations[k]).order != order,
    ensures
        user_of(after_live(store, user_id, d, service, order, true, hour, now).users, user_id) == queried(
            seen(user_of(store.users, user_id), now),
            service,
            d.name,
            d.direction_id,
            d.topology.stations[at].name,
            order,
            hour,
            now,
        ),
        user_of(after_live(store, user_id, d, service, order, false, hour, now).users, user_id).queries == user_of(
            store.users,
            user_id,
        ).queries,
{
    lemma_first_where(d.topology.stations, |s: LineStopModel| s.order == order, at);
}

} // verus!
