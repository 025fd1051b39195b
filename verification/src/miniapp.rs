//! The panel of a user: their own settings, favourites and watch.
//!
//! Whoever is signed in reads and changes their own record, and nothing else.
use crate::api::{after_login, refusal, refuse, ApiError, ApiErrorModel};
use crate::auth::{kept, SessionModel, Sessions, TelegramUserModel};
use crate::dialog::{after_replacing, finish_step, opt_step, stop_watch as end_watch, watch_begun, watch_cleared, without_favorite, Step};
use crate::pages::service_label as label_text;
use crate::provider::registry::{ServiceEntry, ServiceEntryModel};
use crate::seqs::lemma_first_where_is;
use crate::store::{
    alerts_of, capped, field_key, field_label, field_range, field_step, field_unit, has_trip, hour_sum, law_field_keys_differ, most_queried,
    law_setting_one_keeps_the_rest, seen, setting, user_of, watch_label, with_setting, with_user, AlertField, AlertSettings, Habit, HabitModel, Store, StoreModel, UserState,
    UserStateModel, WatchSpecModel,
};
use crate::text::{copy, join, joined, opt_view, views};
use crate::web::{find_offer, offer_index, MAX_ORDER};
use vstd::prelude::*;

verus! {

// ─── the settings ───

/// What is shown of a setting.
#[derive(Debug)]
pub struct FieldInfo {
    pub key: String,
    pub label: String,
    pub unit: String,
    pub step: u64,
    pub min: u64,
    pub max: u64,
}

/// What a [`FieldInfo`] holds.
#[verifier::ext_equal]
pub struct FieldInfoModel {
    pub key: Seq<char>,
    pub label: Seq<char>,
    pub unit: Seq<char>,
    pub step: u64,
    pub min: u64,
    pub max: u64,
}

impl View for FieldInfo {
    type V = FieldInfoModel;

    open spec fn view(&self) -> FieldInfoModel {
        FieldInfoModel {
            key: self.key@,
            label: self.label@,
            unit: self.unit@,
            step: self.step,
            min: self.min,
            max: self.max,
        }
    }
}

impl FieldInfo {
    /// What a list of [`FieldInfo`] holds.
    pub open spec fn models(list: Seq<FieldInfo>) -> Seq<FieldInfoModel> {
        list.map_values(|x: FieldInfo| x@)
    }
}

/// Alert settings and what they can be set to.
#[derive(Debug)]
pub struct AlertsView {
    pub using_defaults: bool,
    pub values: AlertSettings,
    pub fields: Vec<FieldInfo>,
}

/// What a [`AlertsView`] holds.
#[verifier::ext_equal]
pub struct AlertsViewModel {
    pub using_defaults: bool,
    pub values: AlertSettings,
    pub fields: Seq<FieldInfoModel>,
}

impl View for AlertsView {
    type V = AlertsViewModel;

    open spec fn view(&self) -> AlertsViewModel {
        AlertsViewModel {
            using_defaults: self.using_defaults,
            values: self.values,
            fields: FieldInfo::models(self.fields@),
        }
    }
}

/// What is shown of a setting.
pub open spec fn field_info_of(field: AlertField) -> FieldInfoModel {
    FieldInfoModel {
        key: field_key(field),
        label: field_label(field),
        unit: field_unit(field),
        step: field_step(field),
        min: field_range(field).0,
        max: field_range(field).1,
    }
}

fn field_info(field: AlertField) -> (r: FieldInfo)
    ensures
        r@ == field_info_of(field),
{
    let (min, max) = field.range();
    FieldInfo {
        key: copy(field.key()),
        label: copy(field.label()),
        unit: copy(field.unit()),
        step: field.step(),
        min: min,
        max: max,
    }
}

/// Alert settings and what they can be set to.
pub open spec fn alerts_view_of(alerts: AlertSettings, using_defaults: bool) -> AlertsViewModel {
    AlertsViewModel {
        using_defaults: using_defaults,
        values: alerts,
        fields: seq![
            field_info_of(AlertField::Poll),
            field_info_of(AlertField::Stations),
            field_info_of(AlertField::Distance),
            field_info_of(AlertField::Repeat),
            field_info_of(AlertField::MaxMinutes),
        ],
    }
}

/// Alert settings and what they can be set to.
pub fn alerts_json(alerts: &AlertSettings, using_defaults: bool) -> (r: AlertsView)
    ensures
        r@ == alerts_view_of(*alerts, using_defaults),
{
    let mut fields: Vec<FieldInfo> = Vec::new();
    fields.push(field_info(AlertField::Poll));
    fields.push(field_info(AlertField::Stations));
    fields.push(field_info(AlertField::Distance));
    fields.push(field_info(AlertField::Repeat));
    fields.push(field_info(AlertField::MaxMinutes));
    assert(FieldInfo::models(fields@) =~= alerts_view_of(*alerts, using_defaults).fields);
    AlertsView { using_defaults: using_defaults, values: *alerts, fields: fields }
}

/// What a list of names and numbers holds.
pub open spec fn value_views(list: Seq<(String, u64)>) -> Seq<(Seq<char>, u64)> {
    list.map_values(|p: (String, u64)| (p.0@, p.1))
}

/// The setting of that name.
pub open spec fn field_named(key: Seq<char>) -> Option<AlertField> {
    if key == field_key(AlertField::Poll) {
        Some(AlertField::Poll)
    } else if key == field_key(AlertField::Stations) {
        Some(AlertField::Stations)
    } else if key == field_key(AlertField::Distance) {
        Some(AlertField::Distance)
    } else if key == field_key(AlertField::Repeat) {
        Some(AlertField::Repeat)
    } else if key == field_key(AlertField::MaxMinutes) {
        Some(AlertField::MaxMinutes)
    } else {
        None
    }
}

proof fn lemma_field_named(field: AlertField)
    ensures
        field_named(field_key(field)) == Some(field),
{
    law_field_keys_differ(field, AlertField::Poll);
    law_field_keys_differ(field, AlertField::Stations);
    law_field_keys_differ(field, AlertField::Distance);
    law_field_keys_differ(field, AlertField::Repeat);
    law_field_keys_differ(field, AlertField::MaxMinutes);
}

/// The settings after a request: each value that names a setting is set, moved into its range.
pub open spec fn values_applied(alerts: AlertSettings, values: Seq<(Seq<char>, u64)>) -> AlertSettings
    decreases values.len(),
{
    if values.len() == 0 {
        alerts
    } else {
        let before = values_applied(alerts, values.drop_last());
        match field_named(values.last().0) {
            Some(field) => with_setting(before, field, values.last().1 as int),
            None => before,
        }
    }
}

/// The names in a request that name no setting.
pub open spec fn unknown_names(values: Seq<(Seq<char>, u64)>) -> Seq<Seq<char>>
    decreases values.len(),
{
    if values.len() == 0 {
        Seq::empty()
    } else {
        let before = unknown_names(values.drop_last());
        match field_named(values.last().0) {
            Some(_) => before,
            None => before.push(values.last().0),
        }
    }
}

/// Sets what a request names, and gives the names that name no setting.
pub fn apply_values(alerts: &mut AlertSettings, values: &Vec<(String, u64)>) -> (r: Vec<String>)
    ensures
        *final(alerts) == values_applied(*old(alerts), value_views(values@)),
        views(r@) == unknown_names(value_views(values@)),
{
    let ghost start = *alerts;
    let ghost all = value_views(values@);
    let mut unknown: Vec<String> = Vec::new();
    let mut i: usize = 0;
    assert(all.take(0) =~= Seq::<(Seq<char>, u64)>::empty());
    assert(views(unknown@) =~= Seq::<Seq<char>>::empty());
    while i < values.len()
        invariant
            i <= values@.len(),
            all == value_views(values@),
            *alerts == values_applied(start, all.take(i as int)),
            views(unknown@) == unknown_names(all.take(i as int)),
        decreases values.len() - i,
    {
        assert(all[i as int] == (values@[i as int].0@, values@[i as int].1));
        assert(all.take(i + 1).drop_last() =~= all.take(i as int));
        assert(all.take(i + 1).last() == all[i as int]);
        match AlertField::parse(values[i].0.as_str()) {
            Some(field) => {
                proof {
                    lemma_field_named(field);
                }
                let _ = alerts.set(field, values[i].1);
            },
            None => {
                let ghost had = views(unknown@);
                unknown.push(values[i].0.clone());
                assert(views(unknown@) =~= had.push(all[i as int].0));
            },
        }
        i += 1;
    }
    assert(all.take(i as int) =~= all);
    unknown
}

/// The refusal of names that name no setting.
pub open spec fn unknown_refusal(names: Seq<Seq<char>>) -> ApiErrorModel {
    refusal(400, "未知的设置项："@ + joined(names, "、"@))
}

/// The refusal of names that name no setting.
pub fn refuse_unknown(names: &Vec<String>) -> (r: ApiError)
    ensures
        r@ == unknown_refusal(views(names@)),
{
    let mut message = copy("未知的设置项：");
    message.append(join(names, "、").as_str());
    ApiError { status: 400, message: message }
}

// ─── what the panel shows ───

/// What the panel shows of a user.
#[derive(Debug)]
pub struct UserPayload {
    pub id: i64,
    pub state: UserState,
    pub alerts: AlertsView,
    /// The lines looked up most.
    pub habits: Vec<Habit>,
    /// The queries by the hour of the day.
    pub hour_histogram: Vec<u32>,
    /// How the watch is called.
    pub watch_label: Option<String>,
}

/// What a [`UserPayload`] holds.
#[verifier::ext_equal]
pub struct UserPayloadModel {
    pub id: i64,
    pub state: UserStateModel,
    pub alerts: AlertsViewModel,
    pub habits: Seq<HabitModel>,
    pub hour_histogram: Seq<u32>,
    pub watch_label: Option<Seq<char>>,
}

impl View for UserPayload {
    type V = UserPayloadModel;

    open spec fn view(&self) -> UserPayloadModel {
        UserPayloadModel {
            id: self.id,
            state: self.state@,
            alerts: self.alerts@,
            habits: Habit::models(self.habits@),
            hour_histogram: self.hour_histogram@,
            watch_label: opt_view(self.watch_label),
        }
    }
}

/// The queries of a user by the hour of the day.
pub open spec fn histogram_of(user: UserStateModel) -> Seq<u32> {
    Seq::new(24, |h: int| capped(hour_sum(user.habits, h)))
}

/// The queries of a user by the hour of the day.
pub fn histogram(user: &UserState) -> (r: Vec<u32>)
    ensures
        r@ == histogram_of(user@),
{
    let hours = user.hour_histogram();
    let mut r: Vec<u32> = Vec::new();
    let mut i: usize = 0;
    while i < 24
        invariant
            i <= 24,
            r@.len() == i,
            forall|h: int| 0 <= h < 24 ==> (#[trigger] hours@[h]) == capped(hour_sum(user@.habits, h)),
            forall|h: int| 0 <= h < i ==> #[trigger] r@[h] == hours@[h],
        decreases 24 - i,
    {
        r.push(hours[i]);
        i += 1;
    }
    assert(r@ =~= histogram_of(user@));
    r
}

/// The lines a user looks up most.
pub fn busiest(user: &UserState, limit: usize) -> (r: Vec<Habit>)
    ensures
        Habit::models(r@) == most_queried(user@.habits, limit as int),
{
    let found = user.top_habits(limit);
    let ghost wanted = most_queried(user@.habits, limit as int);
    assert(wanted.len() == found@.len());
    let mut r: Vec<Habit> = Vec::new();
    let mut i: usize = 0;
    assert(Habit::models(r@) =~= wanted.take(0));
    while i < found.len()
        invariant
            i <= found@.len(),
            wanted == crate::store::habit_refs(found@),
            Habit::models(r@) == wanted.take(i as int),
        decreases found.len() - i,
    {
        let ghost had = Habit::models(r@);
        assert(wanted[i as int] == found@[i as int]@);
        r.push(found[i].clone());
        assert(Habit::models(r@) =~= had.push(wanted[i as int]));
        assert(wanted.take(i + 1) =~= wanted.take(i as int).push(wanted[i as int]));
        i += 1;
    }
    assert(wanted.take(i as int) =~= wanted);
    r
}

/// How the watch of a user is called.
pub open spec fn label_of_watch(user: UserStateModel) -> Option<Seq<char>> {
    match user.watch {
        Some(w) => Some(watch_label(w)),
        None => None,
    }
}

/// How the watch of a user is called.
pub fn watch_name(user: &UserState) -> (r: Option<String>)
    ensures
        opt_view(r) == label_of_watch(user@),
{
    match &user.watch {
        Some(w) => Some(w.label()),
        None => None,
    }
}

/// What the panel shows of a user.
pub open spec fn payload_of(store: StoreModel, user_id: i64) -> UserPayloadModel {
    let state = user_of(store.users, user_id);
    UserPayloadModel {
        id: user_id,
        state: state,
        alerts: alerts_view_of(alerts_of(store, user_id), state.alerts is None),
        habits: most_queried(state.habits, 10),
        hour_histogram: histogram_of(state),
        watch_label: label_of_watch(state),
    }
}

/// What the panel shows of a user.
pub fn user_payload(store: &Store, user_id: i64) -> (r: UserPayload)
    ensures
        r@ == payload_of(store@, user_id),
{
    let state = store.get(user_id);
    let alerts = store.alerts_for(user_id);
    let using_defaults = state.alerts.is_none();
    UserPayload {
        id: user_id,
        alerts: alerts_json(&alerts, using_defaults),
        habits: busiest(&state, 10),
        hour_histogram: histogram(&state),
        watch_label: watch_name(&state),
        state: state,
    }
}

/// What a result says of a user.
pub open spec fn payload_view(r: Result<UserPayload, ApiError>) -> Result<UserPayloadModel, ApiErrorModel> {
    match r {
        Ok(p) => Ok(p@),
        Err(e) => Err(e@),
    }
}

// ─── what the panel changes ───

/// What is kept after a user has changed their settings, or gone back to the defaults.
pub open spec fn after_settings(store: StoreModel, user_id: i64, reset: bool, values: Seq<(Seq<char>, u64)>, now: u64) -> StoreModel {
    let user = seen(user_of(store.users, user_id), now);
    let own = match user.alerts {
        Some(a) => a,
        None => store.settings.defaults,
    };
    with_user(
        store,
        user_id,
        UserStateModel {
            alerts: if reset {
                None
            } else {
                Some(values_applied(own, values))
            },
            ..user
        },
    )
}

/// Changes the settings of a user, or goes back to the defaults. Names that name no setting are
/// refused, once the others have been set.
pub fn save_settings(store: &mut Store, user_id: i64, reset: bool, values: &Vec<(String, u64)>, now: u64) -> (r: Result<
    UserPayload,
    ApiError,
>)
    ensures
        final(store)@ == after_settings(old(store)@, user_id, reset, value_views(values@), now),
        payload_view(r) == if !reset && unknown_names(value_views(values@)).len() > 0 {
            Err(unknown_refusal(unknown_names(value_views(values@))))
        } else {
            Ok(payload_of(final(store)@, user_id))
        },
{
    let mut user = store.touched(user_id, now);
    if reset {
        user.alerts = None;
        store.put(user_id, user);
        return Ok(user_payload(store, user_id));
    }
    let mut alerts = match user.alerts {
        Some(a) => a,
        None => store.settings().defaults,
    };
    let unknown = apply_values(&mut alerts, values);
    assert(unknown_names(value_views(values@)).len() == unknown@.len());
    user.alerts = Some(alerts);
    store.put(user_id, user);
    if unknown.len() > 0 {
        return Err(refuse_unknown(&unknown));
    }
    Ok(user_payload(store, user_id))
}

/// How a source is called; the simulated one is not on offer.
pub open spec fn offer_label(services: Seq<ServiceEntryModel>, service: Seq<char>) -> Option<Seq<char>> {
    let at = offer_index(services, service);
    if at < services.len() {
        Some(label_text(services[at]))
    } else {
        None
    }
}

/// How a source is called.
pub fn service_label(services: &Vec<ServiceEntry>, service: &str) -> (r: Option<String>)
    ensures
        opt_view(r) == offer_label(ServiceEntry::models(services@), service@),
{
    assert(ServiceEntry::models(services@).len() == services@.len());
    let at: usize = find_offer(services, service);
    if at < services.len() {
        assert(ServiceEntry::models(services@)[at as int] == services@[at as int]@);
        let mut t = copy(services[at].city.name.as_str());
        t.append(" · ");
        t.append(services[at].provider.as_str());
        Some(t)
    } else {
        None
    }
}

/// What is kept after a user has chosen a source.
pub open spec fn after_city(store: StoreModel, services: Seq<ServiceEntryModel>, user_id: i64, service: Seq<char>, now: u64) -> StoreModel {
    match offer_label(services, service) {
        Some(label) => with_user(
            store,
            user_id,
            UserStateModel {
                service: Some(service),
                city_label: Some(label),
                ..seen(user_of(store.users, user_id), now)
            },
        ),
        None => store,
    }
}

/// Chooses the source of a user.
pub fn set_city(store: &mut Store, services: &Vec<ServiceEntry>, user_id: i64, service: &str, now: u64) -> (r: Result<
    UserPayload,
    ApiError,
>)
    ensures
        final(store)@ == after_city(old(store)@, ServiceEntry::models(services@), user_id, service@, now),
        payload_view(r) == if offer_label(ServiceEntry::models(services@), service@) is Some {
            Ok(payload_of(final(store)@, user_id))
        } else {
            Err(refusal(400, "请选择有效的城市与数据源"@))
        },
{
    match service_label(services, service) {
        Some(label) => {
            let mut user = store.touched(user_id, now);
            user.service = Some(copy(service));
            user.city_label = Some(label);
            store.put(user_id, user);
            Ok(user_payload(store, user_id))
        },
        None => Err(refuse(400, "请选择有效的城市与数据源")),
    }
}

/// Removes a favourite of a user.
pub fn delete_favorite(store: &mut Store, user_id: i64, service: &str, direction: &str, order: u32, now: u64) -> (r: Result<
    UserPayload,
    ApiError,
>)
    ensures
        final(store)@ == with_user(
            old(store)@,
            user_id,
            without_favorite(seen(user_of(old(store)@.users, user_id), now), service@, direction@, order),
        ),
        payload_view(r) == if has_trip(user_of(old(store)@.users, user_id).favorites, service@, direction@, order) {
            Ok(payload_of(final(store)@, user_id))
        } else {
            Err(refusal(404, "没有这条收藏"@))
        },
{
    let mut user = store.touched(user_id, now);
    let ghost before = user@;
    match user.favorite_index(service, direction, order) {
        Some(index) => {
            let _ = user.favorites.remove(index);
            assert(user@.favorites =~= before.favorites.remove(index as int));
            assert(user@ =~= without_favorite(before, service@, direction@, order));
            store.put(user_id, user);
            Ok(user_payload(store, user_id))
        },
        None => {
            store.put(user_id, user);
            Err(refuse(404, "没有这条收藏"))
        },
    }
}

/// The source that a watch is to use: the one in the request, else the one that the user has chosen.
pub open spec fn watch_source(store: StoreModel, services: Seq<ServiceEntryModel>, user_id: i64, service: Option<Seq<char>>, order: u32) -> Result<
    Seq<char>,
    ApiErrorModel,
> {
    let chosen = match service {
        Some(s) => Some(s),
        None => user_of(store.users, user_id).service,
    };
    match chosen {
        Some(s) => if offer_label(services, s) is None {
            Err(refusal(400, "请选择有效的城市与数据源"@))
        } else if order == 0 || order > MAX_ORDER {
            Err(refusal(400, "站序无效"@))
        } else {
            Ok(s)
        },
        None => Err(refusal(400, "还没有选择城市"@)),
    }
}

/// The source that a watch is to use, where one can begin.
pub fn start_watch(store: &Store, services: &Vec<ServiceEntry>, user_id: i64, service: &Option<String>, order: u32) -> (r: Result<
    String,
    ApiError,
>)
    ensures
        crate::web::name_view(r) == watch_source(
            store@,
            ServiceEntry::models(services@),
            user_id,
            opt_view(*service),
            order,
        ),
{
    let chosen = match service {
        Some(s) => Some(s.clone()),
        None => store.get(user_id).service,
    };
    match chosen {
        Some(s) => {
            if service_label(services, s.as_str()).is_none() {
                return Err(refuse(400, "请选择有效的城市与数据源"));
            }
            if order == 0 || order > MAX_ORDER {
                return Err(refuse(400, "站序无效"));
            }
            Ok(s)
        },
        None => Err(refuse(400, "还没有选择城市")),
    }
}

/// What is answered once a watch was to begin.
pub fn watch_started(store: &Store, user_id: i64) -> (r: Result<UserPayload, ApiError>)
    ensures
        payload_view(r) == if user_of(store@.users, user_id).watch is Some {
            Ok(payload_of(store@, user_id))
        } else {
            Err(
                refusal(
                    502,
                    "盯车没能启动，请回到机器人里查看提示（可能是线路站点已调整或数据源不可用）"@,
                ),
            )
        },
{
    if store.get(user_id).watch.is_some() {
        Ok(user_payload(store, user_id))
    } else {
        Err(
            refuse(
                502,
                "盯车没能启动，请回到机器人里查看提示（可能是线路站点已调整或数据源不可用）",
            ),
        )
    }
}

/// What is kept after a watch was stopped from outside: where there was none, nothing has changed.
pub open spec fn after_stop(store: StoreModel, user_id: i64, running: bool, now: u64) -> StoreModel {
    if running || user_of(store.users, user_id).watch is Some {
        watch_cleared(store, user_id, now)
    } else {
        store
    }
}

/// Stops the watch of a user; `running` says whether one is under way. Whether there was one, the step
/// that closes its card, and what the panel shows now.
pub fn stop_watch(store: &mut Store, user_id: i64, running: bool, now: u64) -> (r: (bool, Option<Step>, UserPayload))
    ensures
        final(store)@ == after_stop(old(store)@, user_id, running, now),
        r.0 == (running || user_of(old(store)@.users, user_id).watch is Some),
        opt_step(r.1) == finish_step(user_of(old(store)@.users, user_id).watch, "你在用户面板里停止了盯车。"@),
        r.2@ == payload_of(final(store)@, user_id),
{
    let (stopped, step) = end_watch(store, user_id, running, "你在用户面板里停止了盯车。", now);
    (stopped, step, user_payload(store, user_id))
}

/// The sessions without those of a user.
pub open spec fn without_user(sessions: Map<Seq<char>, SessionModel>, user_id: i64) -> Map<Seq<char>, SessionModel> {
    kept(sessions, |s: SessionModel| s.user.id != user_id)
}

/// What is kept after a user is gone.
pub open spec fn after_removal(store: StoreModel, user_id: i64) -> StoreModel {
    StoreModel {
        users: store.users.remove(user_id),
        dirty: store.dirty || store.users.dom().contains(user_id),
        ..store
    }
}

/// Deletes everything that is kept of a user, stops their watch and ends their sessions. Whether there
/// was anything, and the step that closes the card of the watch.
pub fn forget_me(store: &mut Store, sessions: &mut Sessions, user_id: i64, running: bool, now: u64) -> (r: (bool, Option<Step>))
    ensures
        final(store)@ == after_removal(after_stop(old(store)@, user_id, running, now), user_id),
        r.0 == after_stop(old(store)@, user_id, running, now).users.dom().contains(user_id),
        opt_step(r.1) == finish_step(user_of(old(store)@.users, user_id).watch, "账号数据已删除，盯车结束。"@),
        final(sessions)@ == without_user(old(sessions)@, user_id),
{
    let (_, step) = end_watch(store, user_id, running, "账号数据已删除，盯车结束。", now);
    let removed = store.remove(user_id);
    sessions.revoke_user(user_id);
    (removed, step)
}

// ─── laws ───

/// Whatever the panel does for a user, it leaves the records of all others and the global settings as
/// they are.
pub proof fn law_panel_changes_only_its_user(
    store: StoreModel,
    services: Seq<ServiceEntryModel>,
    user_id: i64,
    other: i64,
    reset: bool,
    values: Seq<(Seq<char>, u64)>,
    service: Seq<char>,
    direction: Seq<char>,
    order: u32,
    running: bool,
    signed_in: TelegramUserModel,
    begun: WatchSpecModel,
    now: u64,
)
    requires
        other != user_id,
        signed_in.id == user_id,
    ensures
        ({
            let login = after_login(store, signed_in, now);
            let watch = watch_begun(after_replacing(store, user_id, now), user_id, begun, now);
            let settings = after_settings(store, user_id, reset, values, now);
            let city = after_city(store, services, user_id, service, now);
            let favorite = with_user(
                store,
                user_id,
                without_favorite(seen(user_of(store.users, user_id), now), service, direction, order),
            );
            let stop = after_stop(store, user_id, running, now);
            let removal = after_removal(stop, user_id);
            &&& user_of(login.users, other) == user_of(store.users, other) && login.settings == store.settings
            &&& user_of(watch.users, other) == user_of(store.users, other) && watch.settings == store.settings
            &&& user_of(settings.users, other) == user_of(store.users, other) && settings.settings == store.settings
            &&& user_of(city.users, other) == user_of(store.users, other) && city.settings == store.settings
            &&& user_of(favorite.users, other) == user_of(store.users, other) && favorite.settings == store.settings
            &&& user_of(stop.users, other) == user_of(store.users, other) && stop.settings == store.settings
            &&& user_of(removal.users, other) == user_of(store.users, other) && removal.settings == store.settings
        }),
{
}

/// Of a user who is deleted nothing is kept, and none of their sessions is good any more.
pub proof fn law_deleted_user_is_forgotten(store: StoreModel, sessions: Map<Seq<char>, SessionModel>, user_id: i64, running: bool, now: u64)
    ensures
        !after_removal(after_stop(store, user_id, running, now), user_id).users.dom().contains(user_id),
        forall|token: Seq<char>| #[trigger]
            without_user(sessions, user_id).dom().contains(token) ==> without_user(sessions, user_id)[token].user.id != user_id,
{
}

/// A setting goes by its name, and by no other.
pub proof fn law_settings_go_by_name(field: AlertField, key: Seq<char>)
    ensures
        field_named(field_key(field)) == Some(field),
        field_named(key) == Some(field) ==> key == field_key(field),
        field_key(AlertField::Poll) == "poll_secs"@ && field_key(AlertField::Stations) == "alert_stations"@ && field_key(
            AlertField::Distance,
        ) == "alert_distance_m"@ && field_key(AlertField::Repeat) == "repeat_secs"@ && field_key(AlertField::MaxMinutes)
            == "max_minutes"@,
{
    law_field_keys_differ(AlertField::Poll, field);
    law_field_keys_differ(AlertField::Stations, field);
    law_field_keys_differ(AlertField::Distance, field);
    law_field_keys_differ(AlertField::Repeat, field);
    law_field_keys_differ(AlertField::MaxMinutes, field);
}

/// A value that is sent for a setting is the value that the setting has afterwards, moved into its range; the others
/// are as they were without it.
pub proof fn law_sent_value_is_set(
    alerts: AlertSettings,
    values: Seq<(Seq<char>, u64)>,
    field: AlertField,
    value: u64,
    other: AlertField,
)
    ensures
        ({
            let after = values_applied(alerts, values.push((field_key(field), value)));
            &&& field_range(field).0 <= value <= field_range(field).1 ==> setting(after, field) == value
            &&& value < field_range(field).0 ==> setting(after, field) == field_range(field).0
            &&& value > field_range(field).1 ==> setting(after, field) == field_range(field).1
            &&& other != field ==> setting(after, other) == setting(values_applied(alerts, values), other)
        }),
        values_applied(alerts, Seq::empty()) == alerts,
{
    let all = values.push((field_key(field), value));
    assert(all.drop_last() =~= values);
    law_settings_go_by_name(field, field_key(field));
    law_setting_one_keeps_the_rest(values_applied(alerts, values), field, value as int, other);
}

/// A name that no setting has changes nothing and is told; a request without one is not refused.
pub proof fn law_unknown_names_are_told(alerts: AlertSettings, values: Seq<(Seq<char>, u64)>, key: Seq<char>, value: u64)
    ensures
        field_named(key) is None ==> unknown_names(values.push((key, value))) == unknown_names(values).push(key) && values_applied(
            alerts,
            values.push((key, value)),
        ) == values_applied(alerts, values),
        field_named(key) is Some ==> unknown_names(values.push((key, value))) == unknown_names(values),
        unknown_names(Seq::<(Seq<char>, u64)>::empty()).len() == 0,
        unknown_refusal(unknown_names(values)).status == 400,
{
    assert(values.push((key, value)).drop_last() =~= values);
}

/// What is sent is kept as the user's own settings, from those or the defaults; a reset goes back to the defaults.
pub proof fn law_sent_settings_are_kept(store: StoreModel, user_id: i64, values: Seq<(Seq<char>, u64)>, now: u64)
    ensures
        ({
            let user = user_of(store.users, user_id);
            let kept_ones = user_of(after_settings(store, user_id, false, values, now).users, user_id).alerts;
            &&& user.alerts is Some ==> kept_ones == Some(values_applied(user.alerts->0, values))
            &&& user.alerts is None ==> kept_ones == Some(values_applied(store.settings.defaults, values))
            &&& user_of(after_settings(store, user_id, true, values, now).users, user_id).alerts is None
        }),
{
}

/// The panel shows whoever is signed in what is kept of them: their settings, the ten lines that they look up most,
/// their queries by the hour and their watch.
pub proof fn law_panel_shows_its_user(store: StoreModel, user_id: i64)
    ensures
        ({
            let shown = payload_of(store, user_id);
            let user = user_of(store.users, user_id);
            &&& shown.id == user_id && shown.state == user
            &&& shown.alerts.values == alerts_of(store, user_id) && shown.alerts.using_defaults == (user.alerts is None)
            &&& shown.habits == most_queried(user.habits, 10)
            &&& shown.hour_histogram.len() == 24
            &&& forall|h: int|
                0 <= h < 24 && hour_sum(user.habits, h) <= u32::MAX ==> #[trigger] shown.hour_histogram[h] == hour_sum(user.habits, h)
            &&& shown.watch_label is Some <==> user.watch is Some
        }),
{
}

/// The panel describes each setting: its name, its step and its range.
pub proof fn law_panel_describes_settings(alerts: AlertSettings, using_defaults: bool)
    ensures
        ({
            let fields = alerts_view_of(alerts, using_defaults).fields;
            &&& fields.len() == 5
            &&& fields[0].key == "poll_secs"@ && fields[0].min == 5 && fields[0].max == 120 && fields[0].step == 5
            &&& fields[1].key == "alert_stations"@ && fields[1].min == 0 && fields[1].max == 10 && fields[1].step == 1
            &&& fields[2].key == "alert_distance_m"@ && fields[2].min == 0 && fields[2].max == 5000 && fields[2].step == 100
            &&& fields[3].key == "repeat_secs"@ && fields[3].min == 15 && fields[3].max == 600 && fields[3].step == 15
            &&& fields[4].key == "max_minutes"@ && fields[4].min == 5 && fields[4].max == 240 && fields[4].step == 10
        }),
{
}

/// A city can be chosen exactly where it is on offer, and is then the user's; else nothing changes.
pub proof fn law_city_on_offer_is_kept(
    store: StoreModel,
    services: Seq<ServiceEntryModel>,
    user_id: i64,
    service: Seq<char>,
    now: u64,
)
    ensures
        ({
            let there = exists|k: int|
                0 <= k < services.len() && (#[trigger] services[k]).id == service && services[k].provider != "Debug"@;
            let after = after_city(store, services, user_id, service, now);
            &&& there ==> user_of(after.users, user_id).service == Some(service) && user_of(after.users, user_id).city_label is Some
            &&& !there ==> after == store
        }),
{
    let offers = crate::web::is_offered(service);
    lemma_first_where_is(services, offers);
    let at = offer_index(services, service);
    if at < services.len() {
        assert(services[at].id == service && services[at].provider != "Debug"@);
    } else {
        assert forall|k: int| 0 <= k < services.len() implies !((#[trigger] services[k]).id == service && services[k].provider
            != "Debug"@) by {
            assert(!offers(services[k]));
        }
    }
}

/// A watch can be begun from the panel in a city on offer at a stop from one to ten thousand; the user's own city is
/// taken where none is named. Else it is a bad request.
pub proof fn law_panel_begins_a_watch(
    store: StoreModel,
    services: Seq<ServiceEntryModel>,
    user_id: i64,
    service: Option<Seq<char>>,
    order: u32,
)
    ensures
        ({
            let r = watch_source(store, services, user_id, service, order);
            let own = user_of(store.users, user_id).service;
            &&& service is Some ==> (r is Ok <==> offer_label(services, service->0) is Some && 1 <= order <= 10_000)
            &&& service is None ==> (r is Ok <==> own is Some && offer_label(services, own->0) is Some && 1 <= order <= 10_000)
            &&& r matches Ok(s) ==> (service is Some ==> Some(s) == service) && (service is None ==> Some(s) == own)
            &&& r matches Err(e) ==> e.status == 400
        }),
{
}

/// Stopping from the panel ends the watch and keeps everything else.
pub proof fn law_stopped_watch_is_over(store: StoreModel, user_id: i64, running: bool, now: u64)
    ensures
        ({
            let (before, after) = (user_of(store.users, user_id), user_of(after_stop(store, user_id, running, now).users, user_id));
            &&& after.watch is None
            &&& after.favorites == before.favorites && after.habits == before.habits && after.alerts == before.alerts && after.service
                == before.service && after.banned == before.banned
        }),
{
}

} // verus!
