//! The console of whoever runs the bot: a password, the figures, and what can be done to a user.
use crate::api::{bearer, bearer_of, check_view, law_token_follows_the_word, refusal, refuse, ApiError, ApiErrorModel};
use crate::auth::{admin_valid, password_matches, verify_password, AdminSessions, SessionModel, Sessions};
use crate::dialog::{finish_step, opt_step, stop_watch, Step, StepModel};
use crate::miniapp::{
    after_removal, after_stop, alerts_json, alerts_view_of, apply_values, busiest, histogram, histogram_of, label_of_watch, refuse_unknown,
    unknown_names, unknown_refusal, value_views, values_applied, watch_name, without_user, AlertsView, AlertsViewModel,
};
use crate::render::{law_peak_is_the_largest, peak, peak_hour};
use crate::store::{
    all_limited, lists_users, most_queried, seen, user_of, with_user, AlertSettings, GlobalSettings, Habit, HabitModel, Store,
    StoreModel, UserState, UserStateModel,
};
use crate::text::{chars_of, copy, opt_view, same, trim};
use vstd::prelude::*;

verus! {

/// Under what the password is kept.
pub const PASSWORD_KEY: &'static str = "admin_password";

/// How many characters a password has at least.
pub const MIN_PASSWORD_LEN: usize = 8;

// ─── the password ───

/// Whether a request comes from somebody who is signed in to the console.
pub open spec fn authorize_check(sessions: Map<Seq<char>, u64>, header: Option<Seq<char>>, now: u64) -> Result<(), ApiErrorModel> {
    match bearer_of(header) {
        Some(token) => if token.len() > 0 && admin_valid(sessions, token, now) {
            Ok(())
        } else {
            Err(refusal(401, "请先登录管理控制台"@))
        },
        None => Err(refusal(401, "请先登录管理控制台"@)),
    }
}

/// Whether a request that comes in at the time `now` is from somebody who is signed in to the console.
pub fn authorize(sessions: &AdminSessions, header: &Option<String>, now: u64) -> (r: Result<(), ApiError>)
    ensures
        check_view(r) == authorize_check(sessions@, opt_view(*header), now),
{
    match bearer(header) {
        Some(token) => if !token.as_str().is_empty() && sessions.valid_at(token.as_str(), now) {
            Ok(())
        } else {
            Err(refuse(401, "请先登录管理控制台"))
        },
        None => Err(refuse(401, "请先登录管理控制台")),
    }
}

/// Whether a password is long enough.
pub open spec fn strength_check(password: Seq<char>) -> Result<(), ApiErrorModel> {
    if password.len() < MIN_PASSWORD_LEN {
        Err(refusal(400, "口令至少 8 位"@))
    } else {
        Ok(())
    }
}

/// Whether a password is long enough.
pub fn check_strength(password: &str) -> (r: Result<(), ApiError>)
    ensures
        check_view(r) == strength_check(password@),
{
    if chars_of(password).len() < MIN_PASSWORD_LEN {
        Err(refuse(400, "口令至少 8 位"))
    } else {
        Ok(())
    }
}

/// Whether a first password may be set: there must be none yet.
pub open spec fn setup_check(stored: Option<Seq<char>>, password: Seq<char>) -> Result<(), ApiErrorModel> {
    match stored {
        Some(_) => Err(refusal(409, "管理口令已经设置过了，请直接登录"@)),
        None => strength_check(password),
    }
}

/// Whether a first password may be set.
pub fn setup(stored: &Option<String>, password: &str) -> (r: Result<(), ApiError>)
    ensures
        check_view(r) == setup_check(opt_view(*stored), password@),
{
    match stored {
        Some(_) => Err(refuse(409, "管理口令已经设置过了，请直接登录")),
        None => check_strength(password),
    }
}

/// Whether a password opens the console.
pub open spec fn login_check(stored: Option<Seq<char>>, password: Seq<char>) -> Result<(), ApiErrorModel> {
    match stored {
        Some(s) => if password_matches(password, s) {
            Ok(())
        } else {
            Err(refusal(401, "口令不正确"@))
        },
        None => Err(refusal(409, "还没有设置管理口令，请先完成首次设置"@)),
    }
}

/// Whether a password opens the console.
pub fn login(stored: &Option<String>, password: &str) -> (r: Result<(), ApiError>)
    ensures
        check_view(r) == login_check(opt_view(*stored), password@),
{
    match stored {
        Some(s) => if verify_password(password, s.as_str()) {
            Ok(())
        } else {
            Err(refuse(401, "口令不正确"))
        },
        None => Err(refuse(409, "还没有设置管理口令，请先完成首次设置")),
    }
}

/// Whether the password may be changed: the present one has to be given.
pub open spec fn change_check(stored: Option<Seq<char>>, current: Seq<char>, new_password: Seq<char>) -> Result<(), ApiErrorModel> {
    match stored {
        Some(s) => if password_matches(current, s) {
            strength_check(new_password)
        } else {
            Err(refusal(401, "当前口令不正确"@))
        },
        None => Err(refusal(409, "还没有设置管理口令"@)),
    }
}

/// Whether the password may be changed.
pub fn change_password(stored: &Option<String>, current: &str, new_password: &str) -> (r: Result<(), ApiError>)
    ensures
        check_view(r) == change_check(opt_view(*stored), current@, new_password@),
{
    match stored {
        Some(s) => if verify_password(current, s.as_str()) {
            check_strength(new_password)
        } else {
            Err(refuse(401, "当前口令不正确"))
        },
        None => Err(refuse(409, "还没有设置管理口令")),
    }
}

// ─── the figures ───

/// The users in a list of records.
pub open spec fn states(list: Seq<(i64, UserState)>) -> Seq<UserStateModel> {
    list.map_values(|u: (i64, UserState)| u.1@)
}

/// How many favourites the users have.
pub open spec fn favorites_sum(users: Seq<UserStateModel>) -> nat
    decreases users.len(),
{
    if users.len() == 0 {
        0
    } else {
        favorites_sum(users.drop_last()) + users.last().favorites.len()
    }
}

/// How much the users have looked up.
pub open spec fn queries_sum(users: Seq<UserStateModel>) -> nat
    decreases users.len(),
{
    if users.len() == 0 {
        0
    } else {
        queries_sum(users.drop_last()) + users.last().queries as nat
    }
}

/// How many users are banned.
pub open spec fn banned_count(users: Seq<UserStateModel>) -> nat
    decreases users.len(),
{
    if users.len() == 0 {
        0
    } else if users.last().banned {
        banned_count(users.drop_last()) + 1
    } else {
        banned_count(users.drop_last())
    }
}

/// How many users have a watch.
pub open spec fn watching_count(users: Seq<UserStateModel>) -> nat
    decreases users.len(),
{
    if users.len() == 0 {
        0
    } else if users.last().watch is Some {
        watching_count(users.drop_last()) + 1
    } else {
        watching_count(users.drop_last())
    }
}

/// A sum as far as 64 bits hold it.
pub open spec fn in_64_bits(n: nat) -> u64 {
    if n <= u64::MAX {
        n as u64
    } else {
        u64::MAX
    }
}

/// The figures of the bot.
#[derive(Debug)]
pub struct Overview {
    pub users: usize,
    pub banned: usize,
    pub favorites: u64,
    pub queries: u64,
    pub watching: usize,
}

/// What a [`Overview`] holds.
#[verifier::ext_equal]
pub struct OverviewModel {
    pub users: usize,
    pub banned: usize,
    pub favorites: u64,
    pub queries: u64,
    pub watching: usize,
}

impl View for Overview {
    type V = OverviewModel;

    open spec fn view(&self) -> OverviewModel {
        OverviewModel {
            users: self.users,
            banned: self.banned,
            favorites: self.favorites,
            queries: self.queries,
            watching: self.watching,
        }
    }
}

/// The figures of a list of users.
pub open spec fn overview_of(users: Seq<UserStateModel>) -> OverviewModel {
    OverviewModel {
        users: users.len() as usize,
        banned: banned_count(users) as usize,
        favorites: in_64_bits(favorites_sum(users)),
        queries: in_64_bits(queries_sum(users)),
        watching: watching_count(users) as usize,
    }
}

/// The figures of a list of users.
pub fn overview(users: &Vec<(i64, UserState)>) -> (r: Overview)
    ensures
        r@ == overview_of(states(users@)),
{
    let ghost all = states(users@);
    let mut banned: usize = 0;
    let mut favorites: u64 = 0;
    let mut queries: u64 = 0;
    let mut watching: usize = 0;
    let mut i: usize = 0;
    assert(all.take(0) =~= Seq::<UserStateModel>::empty());
    while i < users.len()
        invariant
            i <= users@.len(),
            all == states(users@),
            banned <= i && banned == banned_count(all.take(i as int)),
            watching <= i && watching == watching_count(all.take(i as int)),
            favorites == in_64_bits(favorites_sum(all.take(i as int))),
            queries == in_64_bits(queries_sum(all.take(i as int))),
        decreases users.len() - i,
    {
        let user = &users[i].1;
        assert(all[i as int] == user@);
        assert(all.take(i + 1).drop_last() =~= all.take(i as int));
        assert(all.take(i + 1).last() == all[i as int]);
        assert(user@.favorites.len() == user.favorites@.len());
        favorites = favorites.saturating_add(user.favorites.len() as u64);
        queries = queries.saturating_add(user.queries as u64);
        if user.banned {
            banned += 1;
        }
        if user.watch.is_some() {
            watching += 1;
        }
        i += 1;
    }
    assert(all.take(i as int) =~= all);
    Overview { users: users.len(), banned: banned, favorites: favorites, queries: queries, watching: watching }
}

/// What the console shows of a user.
#[derive(Debug)]
pub struct ConsoleUser {
    pub id: i64,
    pub state: UserState,
    /// A position is kept; where it is stays hidden.
    pub has_location: bool,
    /// The hour with the most queries.
    pub peak_hour: Option<u32>,
    pub hour_histogram: Vec<u32>,
    pub alerts: AlertsView,
    /// The lines looked up most.
    pub habits: Vec<Habit>,
    pub watch_label: Option<String>,
}

/// What a [`ConsoleUser`] holds.
#[verifier::ext_equal]
pub struct ConsoleUserModel {
    pub id: i64,
    pub state: UserStateModel,
    pub has_location: bool,
    pub peak_hour: Option<u32>,
    pub hour_histogram: Seq<u32>,
    pub alerts: AlertsViewModel,
    pub habits: Seq<HabitModel>,
    pub watch_label: Option<Seq<char>>,
}

impl View for ConsoleUser {
    type V = ConsoleUserModel;

    open spec fn view(&self) -> ConsoleUserModel {
        ConsoleUserModel {
            id: self.id,
            state: self.state@,
            has_location: self.has_location,
            peak_hour: self.peak_hour,
            hour_histogram: self.hour_histogram@,
            alerts: self.alerts@,
            habits: Habit::models(self.habits@),
            watch_label: opt_view(self.watch_label),
        }
    }
}

impl ConsoleUser {
    /// What a list of [`ConsoleUser`] holds.
    pub open spec fn models(list: Seq<ConsoleUser>) -> Seq<ConsoleUserModel> {
        list.map_values(|x: ConsoleUser| x@)
    }
}

/// The hour with the most queries, the last where there are several; none without any.
pub open spec fn busiest_hour(hours: Seq<u32>) -> Option<u32> {
    let at = peak(hours, 24);
    if hours[at] > 0 {
        Some(at as u32)
    } else {
        None
    }
}

/// What the console shows of a user.
pub open spec fn console_user_of(id: i64, user: UserStateModel, defaults: AlertSettings) -> ConsoleUserModel {
    ConsoleUserModel {
        id: id,
        state: user,
        has_location: user.last_location is Some,
        peak_hour: busiest_hour(histogram_of(user)),
        hour_histogram: histogram_of(user),
        alerts: alerts_view_of(
            all_limited(
                match user.alerts {
                    Some(a) => a,
                    None => defaults,
                },
            ),
            user.alerts is None,
        ),
        habits: most_queried(user.habits, 5),
        watch_label: label_of_watch(user),
    }
}

/// What the console shows of a user.
pub fn console_user(id: i64, user: &UserState, defaults: &AlertSettings) -> (r: ConsoleUser)
    ensures
        r@ == console_user_of(id, user@, *defaults),
{
    let hours = user.hour_histogram();
    let at: usize = peak_hour(&hours);
    assert(hours@ =~= histogram_of(user@));
    let peak_at: Option<u32> = if hours[at] > 0 {
        Some(at as u32)
    } else {
        None
    };
    let alerts = match user.alerts {
        Some(a) => a.clamped(),
        None => defaults.clamped(),
    };
    ConsoleUser {
        id: id,
        state: user.clone(),
        has_location: user.last_location.is_some(),
        peak_hour: peak_at,
        hour_histogram: histogram(user),
        alerts: alerts_json(&alerts, user.alerts.is_none()),
        habits: busiest(user, 5),
        watch_label: watch_name(user),
    }
}

/// What the console shows of a list of users.
pub open spec fn console_users(list: Seq<(i64, UserState)>, defaults: AlertSettings) -> Seq<ConsoleUserModel> {
    list.map_values(|u: (i64, UserState)| console_user_of(u.0, u.1@, defaults))
}

/// The list holds every user once, whoever was seen last coming first.
pub open spec fn by_last_seen(users: Map<i64, UserStateModel>, list: Seq<(i64, UserState)>) -> bool {
    &&& lists_users(users, list)
    &&& forall|i: int, j: int|
        0 <= i < j < list.len() ==> (#[trigger] list[i]).1@.last_seen >= (#[trigger] list[j]).1@.last_seen
}

/// What the console shows of all users, whoever was seen last coming first.
pub fn list_users(store: &Store) -> (r: Vec<ConsoleUser>)
    ensures
        exists|list: Seq<(i64, UserState)>| #[trigger]
            by_last_seen(store@.users, list) && ConsoleUser::models(r@) == console_users(list, store@.settings.defaults),
{
    let defaults = store.settings().defaults;
    let users = store.all_users();
    let ghost wanted = console_users(users@, defaults);
    let mut r: Vec<ConsoleUser> = Vec::new();
    let mut i: usize = 0;
    assert(ConsoleUser::models(r@) =~= wanted.take(0));
    while i < users.len()
        invariant
            i <= users@.len(),
            wanted == console_users(users@, defaults),
            ConsoleUser::models(r@) == wanted.take(i as int),
        decreases users.len() - i,
    {
        let ghost had = ConsoleUser::models(r@);
        let item = console_user(users[i].0, &users[i].1, &defaults);
        assert(item@ == wanted[i as int]);
        r.push(item);
        assert(ConsoleUser::models(r@) =~= had.push(wanted[i as int]));
        assert(wanted.take(i + 1) =~= wanted.take(i as int).push(wanted[i as int]));
        i += 1;
    }
    assert(wanted.take(i as int) =~= wanted);
    assert(by_last_seen(store@.users, users@));
    r
}

// ─── what can be done ───

/// What an action leaves behind.
#[verifier::ext_equal]
pub struct Outcome {
    pub store: StoreModel,
    pub sessions: Map<Seq<char>, SessionModel>,
    /// Whether a watch was stopped, where that was asked for; or why nothing was done.
    pub result: Result<Option<bool>, ApiErrorModel>,
    /// The step that closes the card of the watch.
    pub step: Option<StepModel>,
}

/// What is kept after a user was banned, or let back in.
pub open spec fn after_ban(store: StoreModel, user_id: i64, banned: bool, now: u64) -> StoreModel {
    with_user(store, user_id, UserStateModel { banned: banned, ..seen(user_of(store.users, user_id), now) })
}

/// What an action on a user does. `bot` says whether the bot is running; without it there are no
/// sessions to be ended and no cards to be closed.
pub open spec fn action_outcome(
    store: StoreModel,
    sessions: Map<Seq<char>, SessionModel>,
    user_id: i64,
    action: Seq<char>,
    bot: bool,
    running: bool,
    now: u64,
) -> Outcome {
    let watch = user_of(store.users, user_id).watch;
    let nothing = Outcome { store: store, sessions: sessions, result: Ok(None), step: None };
    if !store.users.dom().contains(user_id) {
        Outcome { result: Err(refusal(404, "没有这个用户"@)), ..nothing }
    } else if action == "ban"@ {
        let banned = after_ban(store, user_id, true, now);
        if bot {
            Outcome {
                store: after_stop(banned, user_id, running, now),
                sessions: without_user(sessions, user_id),
                result: Ok(None),
                step: finish_step(watch, "账号已被管理员停用。"@),
            }
        } else {
            Outcome { store: banned, ..nothing }
        }
    } else if action == "unban"@ {
        Outcome { store: after_ban(store, user_id, false, now), ..nothing }
    } else if action == "stop_watch"@ {
        if bot {
            Outcome {
                store: after_stop(store, user_id, running, now),
                sessions: sessions,
                result: Ok(Some(running || watch is Some)),
                step: finish_step(watch, "管理员停止了这次盯车。"@),
            }
        } else {
            Outcome {
                store: crate::dialog::watch_cleared(store, user_id, now),
                result: Ok(Some(watch is Some)),
                ..nothing
            }
        }
    } else if action == "delete"@ {
        if bot {
            Outcome {
                store: after_removal(after_stop(store, user_id, running, now), user_id),
                sessions: without_user(sessions, user_id),
                result: Ok(None),
                step: finish_step(watch, "账号数据已删除，盯车结束。"@),
            }
        } else {
            Outcome { store: after_removal(store, user_id), ..nothing }
        }
    } else {
        Outcome { result: Err(refusal(400, "不支持的操作："@ + action)), ..nothing }
    }
}

/// What a result says of an action.
pub open spec fn action_view(r: Result<Option<bool>, ApiError>) -> Result<Option<bool>, ApiErrorModel> {
    match r {
        Ok(stopped) => Ok(stopped),
        Err(e) => Err(e@),
    }
}

fn set_banned(store: &mut Store, user_id: i64, banned: bool, now: u64)
    ensures
        final(store)@ == after_ban(old(store)@, user_id, banned, now),
{
    let mut user = store.touched(user_id, now);
    user.banned = banned;
    store.put(user_id, user);
}

/// Does something to a user: bans them, lets them back in, stops their watch or deletes them.
pub fn user_action(
    store: &mut Store,
    sessions: &mut Sessions,
    user_id: i64,
    action: &str,
    bot: bool,
    running: bool,
    now: u64,
) -> (r: (Result<Option<bool>, ApiError>, Option<Step>))
    ensures
        action_outcome(old(store)@, old(sessions)@, user_id, action@, bot, running, now) == (Outcome {
            store: final(store)@,
            sessions: final(sessions)@,
            result: action_view(r.0),
            step: opt_step(r.1),
        }),
{
    proof {
        reveal_strlit("ban");
        reveal_strlit("unban");
        reveal_strlit("stop_watch");
        reveal_strlit("delete");
    }
    if !store.has_user(user_id) {
        return (Err(refuse(404, "没有这个用户")), None);
    }
    if same(action, "ban") {
        set_banned(store, user_id, true, now);
        if bot {
            sessions.revoke_user(user_id);
            let (_, step) = stop_watch(store, user_id, running, "账号已被管理员停用。", now);
            return (Ok(None), step);
        }
        return (Ok(None), None);
    }
    if same(action, "unban") {
        set_banned(store, user_id, false, now);
        return (Ok(None), None);
    }
    if same(action, "stop_watch") {
        if bot {
            let (stopped, step) = stop_watch(store, user_id, running, "管理员停止了这次盯车。", now);
            return (Ok(Some(stopped)), step);
        }
        let mut user = store.touched(user_id, now);
        let had = user.watch.is_some();
        user.watch = None;
        store.put(user_id, user);
        return (Ok(Some(had)), None);
    }
    if same(action, "delete") {
        if bot {
            let (_, step) = stop_watch(store, user_id, running, "账号数据已删除，盯车结束。", now);
            sessions.revoke_user(user_id);
            let _ = store.remove(user_id);
            return (Ok(None), step);
        }
        let _ = store.remove(user_id);
        return (Ok(None), None);
    }
    let mut message = copy("不支持的操作：");
    message.append(action);
    (Err(ApiError { status: 400, message: message }), None)
}

/// The global settings after a request.
pub open spec fn settings_after(settings: GlobalSettings, allow_new_users: Option<bool>, values: Seq<(Seq<char>, u64)>) -> GlobalSettings {
    GlobalSettings {
        defaults: all_limited(values_applied(settings.defaults, values)),
        allow_new_users: match allow_new_users {
            Some(allow) => allow,
            None => settings.allow_new_users,
        },
    }
}

/// Changes the global settings. Names that name no setting are refused, once the others have been
/// set.
pub fn save_settings(store: &mut Store, allow_new_users: Option<bool>, values: &Vec<(String, u64)>) -> (r: Result<GlobalSettings, ApiError>)
    ensures
        final(store)@ == (StoreModel {
            settings: settings_after(old(store)@.settings, allow_new_users, value_views(values@)),
            dirty: true,
            ..old(store)@
        }),
        (match r {
            Ok(settings) => Ok(settings),
            Err(e) => Err(e@),
        }) == if unknown_names(value_views(values@)).len() > 0 {
            Err(unknown_refusal(unknown_names(value_views(values@))))
        } else {
            Ok(final(store)@.settings)
        },
{
    let mut settings = store.settings();
    match allow_new_users {
        Some(allow) => {
            settings.allow_new_users = allow;
        },
        None => {},
    }
    let mut defaults = settings.defaults;
    let unknown = apply_values(&mut defaults, values);
    assert(unknown_names(value_views(values@)).len() == unknown@.len());
    settings.defaults = defaults;
    store.set_settings(settings);
    if unknown.len() > 0 {
        return Err(refuse_unknown(&unknown));
    }
    Ok(store.settings())
}

// ─── laws ───

/// Whoever is banned while the bot runs has no session left, no watch left, and is turned away.
pub proof fn law_ban_takes_everything(
    store: StoreModel,
    sessions: Map<Seq<char>, SessionModel>,
    user_id: i64,
    running: bool,
    now: u64,
)
    requires
        store.users.dom().contains(user_id),
    ensures
        ({
            let after = action_outcome(store, sessions, user_id, "ban"@, true, running, now);
            let user = user_of(after.store.users, user_id);
            &&& user.banned
            &&& user.watch is None
            &&& forall|token: Seq<char>| #[trigger]
                after.sessions.dom().contains(token) ==> after.sessions[token].user.id != user_id
        }),
{
    reveal_strlit("ban");
}

/// Letting a user back in undoes the ban and leaves the rest of the record as it was.
pub proof fn law_unban_undoes_ban(store: StoreModel, user_id: i64, now: u64)
    ensures
        ({
            let user = user_of(store.users, user_id);
            let back = user_of(after_ban(after_ban(store, user_id, true, now), user_id, false, now).users, user_id);
            !user.banned ==> back == seen(user, now)
        }),
{
}

// ─── what the console may and counts ───

/// The console is open to whoever has a session of it that has not run out, and to nobody else.
pub proof fn law_console_is_open_to_admins(sessions: Map<Seq<char>, u64>, token: Seq<char>, now: u64)
    requires
        trim(token) == token,
        token.len() > 0,
    ensures
        authorize_check(sessions, Some("Bearer "@ + token), now) is Ok <==> sessions.dom().contains(token) && now < sessions[token]
            + 28_800,
        authorize_check(sessions, None, now) is Err,
        authorize_check(sessions, Some("Bearer "@ + token), now) matches Err(e) ==> e.status == 401,
{
    law_token_follows_the_word(token, token);
}

/// A password has eight characters at least. It is set once, and changed by whoever knows the one that there is;
/// signing in takes the one that is stored.
pub proof fn law_password_is_set_and_changed(stored: Seq<char>, password: Seq<char>, other: Seq<char>)
    ensures
        strength_check(password) is Ok <==> password.len() >= 8,
        setup_check(None, password) is Ok <==> password.len() >= 8,
        setup_check(Some(stored), password) matches Err(e) && e.status == 409,
        login_check(Some(stored), password) is Ok <==> password_matches(password, stored),
        login_check(Some(stored), password) matches Err(e) ==> e.status == 401,
        login_check(None, password) matches Err(e) && e.status == 409,
        change_check(Some(stored), password, other) is Ok <==> password_matches(password, stored) && other.len() >= 8,
        change_check(Some(stored), password, other) matches Err(e) ==> e.status == if password_matches(password, stored) {
            400u16
        } else {
            401
        },
        change_check(None, password, other) is Err,
{
}

/// Each user counts once in the overview: with their favourites and queries, as banned where they are, and as
/// watching where they are.
pub proof fn law_overview_counts_each_user(users: Seq<UserStateModel>, user: UserStateModel)
    requires
        users.len() < usize::MAX,
        favorites_sum(users) + user.favorites.len() <= u64::MAX,
        queries_sum(users) + user.queries <= u64::MAX,
    ensures
        ({
            let (before, after) = (overview_of(users), overview_of(users.push(user)));
            &&& after.users == before.users + 1
            &&& after.banned == before.banned + if user.banned {
                1int
            } else {
                0
            }
            &&& after.watching == before.watching + if user.watch is Some {
                1int
            } else {
                0
            }
            &&& after.favorites == before.favorites + user.favorites.len()
            &&& after.queries == before.queries + user.queries
        }),
        ({
            let none = overview_of(Seq::empty());
            none.users == 0 && none.banned == 0 && none.watching == 0 && none.favorites == 0 && none.queries == 0
        }),
{
    assert(users.push(user).drop_last() =~= users);
    lemma_counts(users);
}

proof fn lemma_counts(users: Seq<UserStateModel>)
    ensures
        banned_count(users) <= users.len(),
        watching_count(users) <= users.len(),
    decreases users.len(),
{
    if users.len() > 0 {
        lemma_counts(users.drop_last());
    }
}

/// The console shows a user's busiest hour: no other hour has more queries, and there is none without queries.
pub proof fn law_busiest_hour_has_the_most_queries(hours: Seq<u32>, h: int)
    requires
        hours.len() == 24,
        0 <= h < 24,
    ensures
        match busiest_hour(hours) {
            Some(at) => at < 24 && hours[at as int] > 0 && hours[at as int] >= hours[h],
            None => hours[h] == 0,
        },
{
    law_peak_is_the_largest(hours, 24, h);
}

/// What the console shows of a user is what is kept of them; where they were stays hidden.
pub proof fn law_console_shows_its_user(id: i64, user: UserStateModel, defaults: AlertSettings)
    ensures
        ({
            let shown = console_user_of(id, user, defaults);
            &&& shown.id == id && shown.state == user
            &&& shown.has_location <==> user.last_location is Some
            &&& shown.habits == most_queried(user.habits, 5)
            &&& user.alerts is Some ==> shown.alerts.values == all_limited(user.alerts->0) && !shown.alerts.using_defaults
            &&& user.alerts is None ==> shown.alerts.values == all_limited(defaults) && shown.alerts.using_defaults
            &&& shown.watch_label is Some <==> user.watch is Some
        }),
{
}

/// An action on a user does what it is called: a ban bans, its end lets in again, a stop ends the watch, a deletion
/// forgets the user. An action on nobody is not found, and an unknown one a bad request; both change nothing.
pub proof fn law_actions_do_what_they_are_called(
    store: StoreModel,
    sessions: Map<Seq<char>, SessionModel>,
    user_id: i64,
    action: Seq<char>,
    bot: bool,
    running: bool,
    now: u64,
)
    ensures
        ({
            let r = action_outcome(store, sessions, user_id, action, bot, running, now);
            let known = store.users.dom().contains(user_id);
            &&& !known ==> r.store == store && (r.result matches Err(e) && e.status == 404)
            &&& known && action == "ban"@ ==> r.result is Ok && user_of(r.store.users, user_id).banned
            &&& known && action == "unban"@ ==> r.result is Ok && !user_of(r.store.users, user_id).banned
            &&& known && action == "stop_watch"@ ==> user_of(r.store.users, user_id).watch is None && user_of(
                r.store.users,
                user_id,
            ).banned == store.users[user_id].banned && r.store.users.dom().contains(user_id)
            &&& known && action == "stop_watch"@ && !running ==> r.result == Ok::<Option<bool>, ApiErrorModel>(
                Some(store.users[user_id].watch is Some),
            )
            &&& known && action == "delete"@ ==> r.result is Ok && !r.store.users.dom().contains(user_id)
            &&& known && action != "ban"@ && action != "unban"@ && action != "stop_watch"@ && action != "delete"@ ==> r.store == store && (
            r.result matches Err(e) && e.status == 400)
        }),
{
    reveal_strlit("ban");
    reveal_strlit("unban");
    reveal_strlit("stop_watch");
    reveal_strlit("delete");
    assert("ban"@.len() == 3 && "unban"@.len() == 5 && "stop_watch"@.len() == 10 && "delete"@.len() == 6);
}

/// The defaults are changed by name and moved into their ranges; whether new users may start changes only where it is
/// said.
pub proof fn law_defaults_are_changed_by_name(settings: GlobalSettings, allow: Option<bool>, values: Seq<(Seq<char>, u64)>)
    ensures
        ({
            let after = settings_after(settings, allow, values);
            &&& after.defaults == all_limited(values_applied(settings.defaults, values))
            &&& allow is None ==> after.allow_new_users == settings.allow_new_users
            &&& allow is Some ==> after.allow_new_users == allow->0
        }),
{
}

} // verus!
