//! The pages of the bot: what each message says and which buttons are under it.
//!
//! A page is made from what is kept of the user and what the sources have delivered; nothing is
//! fetched or sent here.
use crate::models::{
    ArrivalEstimate, BusPosition, BusPositionModel, BusRoute, BusRouteModel, Double, EndpointsView, EndpointsViewModel, LineDetail, LineDetailModel, LineStop,
    LineStopModel, LineSummary, LineSummaryModel, RealTimeData, RealTimeDataModel, Station, StationModel,
};
use crate::provider::registry::{ServiceEntry, ServiceEntryModel};
use crate::render::{
    alert_settings_text, alert_settings_text_of, arrival_text, arrival_text_of, describe_bus, described, escape, escaped, field_note,
    habit_button_label, habits_text, habits_text_of, line_detail_text, line_detail_text_of, live_text, live_text_of, run_state_text,
    run_state_text_of, setting_line, stop_status_note, stop_status_note_of,
};
use crate::seqs::{lemma_filter_has, lemma_filter_next, lemma_first_where_is};
use crate::sort::{arranged, key_views, lemma_arranged, lemma_lex_one, lemma_lex_two, order_of, stable_order};
use crate::stops::{find_stop, progress_of, stop_index};
use crate::store::{
    at_stop, field_label, field_unit, habit_refs, has_trip, is_trip, most_queried, setting, suggested, trip_index, watch_label, AlertField, AlertSettings,
    Favorite, FavoriteModel, Habit, HabitModel, UserState, UserStateModel, WatchSpec, WatchSpecModel,
};
use crate::telegram::{keyboard, keyboard_json, location_keyboard, location_keyboard_of, remove_keyboard};
use crate::text::{
    blank, contains, copy, dec, dec2, decimal, decimal2, group_has, has, is_blank, lemma_has_behind, lemma_has_itself, lemma_has_middle, lemma_has_through, lowercase, lowercased, occurs_at, opt_view, same, shorten, shortened,
};
use crate::tokens::{
    board_keys, rows_view, Action, ActionModel, Button, ButtonModel, Target, TargetModel, TokenModel, TokenTable,
};
use crate::watch::{by_nearness, law_vehicles_are_listed_by_stops_left, nearest_first};
use vstd::prelude::*;

verus! {

/// How many lines a page of search results holds.
pub const SEARCH_PAGE_SIZE: usize = 9;

/// How many stops a page of a line holds.
pub const STATION_PAGE_SIZE: usize = 10;

/// How many cities a page of cities holds.
pub const CITY_PAGE_SIZE: usize = 8;

/// What stands under a message.
pub enum Board {
    /// Nothing.
    Bare,
    /// Buttons, row by row.
    Inline(Vec<Vec<Button>>),
    /// The button that sends the position.
    Location,
    /// A keyboard is taken away.
    Remove,
}

/// What a [`Board`] holds.
#[verifier::ext_equal]
pub enum BoardModel {
    Bare,
    Inline(Seq<Seq<ButtonModel>>),
    Location,
    Remove,
}

impl View for Board {
    type V = BoardModel;

    open spec fn view(&self) -> BoardModel {
        match *self {
            Board::Bare => BoardModel::Bare,
            Board::Inline(rows) => BoardModel::Inline(rows_view(rows@)),
            Board::Location => BoardModel::Location,
            Board::Remove => BoardModel::Remove,
        }
    }
}

/// What stands under a message as JSON, and the tokens afterwards.
pub open spec fn markup_of(t: TokenModel, board: BoardModel) -> (TokenModel, Option<Seq<char>>) {
    match board {
        BoardModel::Bare => (t, None),
        BoardModel::Inline(rows) => {
            let (after, keys) = board_keys(t, rows);
            (after, Some(keyboard_json(keys)))
        },
        BoardModel::Location => (t, Some(location_keyboard_of())),
        BoardModel::Remove => (t, Some("{\"remove_keyboard\":true}"@)),
    }
}

/// What stands under a message as JSON; the tokens of its buttons are issued.
pub fn markup(board: &Board, tokens: &mut TokenTable) -> (r: Option<String>)
    ensures
        markup_of(old(tokens)@, board@) == (final(tokens)@, opt_view(r)),
{
    match board {
        Board::Bare => None,
        Board::Inline(rows) => {
            let keys = tokens.issue(rows);
            Some(keyboard(&keys))
        },
        Board::Location => Some(location_keyboard()),
        Board::Remove => Some(remove_keyboard()),
    }
}

/// A message.
pub struct Page {
    pub text: String,
    pub board: Board,
}

/// What a [`Page`] holds.
#[verifier::ext_equal]
pub struct PageModel {
    pub text: Seq<char>,
    pub board: BoardModel,
}

impl View for Page {
    type V = PageModel;

    open spec fn view(&self) -> PageModel {
        PageModel { text: self.text@, board: self.board@ }
    }
}

// ─── buttons ───

/// A button that leads to a part of the menu.
pub open spec fn menu_button(label: Seq<char>, part: Seq<char>) -> ButtonModel {
    ButtonModel { label: label, target: TargetModel::Menu(part) }
}

/// A button that does something.
pub open spec fn act_button(label: Seq<char>, action: ActionModel) -> ButtonModel {
    ButtonModel { label: label, target: TargetModel::Act(action) }
}

/// A row with one button.
pub open spec fn one(a: ButtonModel) -> Seq<ButtonModel> {
    Seq::empty().push(a)
}

/// A row with two buttons.
pub open spec fn two(a: ButtonModel, b: ButtonModel) -> Seq<ButtonModel> {
    Seq::empty().push(a).push(b)
}

/// A row with three buttons.
pub open spec fn three(a: ButtonModel, b: ButtonModel, c: ButtonModel) -> Seq<ButtonModel> {
    Seq::empty().push(a).push(b).push(c)
}

/// The row that leads back to the menu.
pub open spec fn home_row() -> Seq<ButtonModel> {
    one(menu_button("🏠 主菜单"@, "home"@))
}

fn menu(label: &str, part: &str) -> (r: Button)
    ensures
        r@ == menu_button(label@, part@),
{
    Button { label: copy(label), target: Target::Menu(copy(part)) }
}

fn act(label: &str, action: Action) -> (r: Button)
    ensures
        r@ == act_button(label@, action@),
{
    Button { label: copy(label), target: Target::Act(action) }
}

fn push_one(rows: &mut Vec<Vec<Button>>, a: Button)
    ensures
        rows_view(final(rows)@) == rows_view(old(rows)@).push(one(a@)),
{
    let mut row: Vec<Button> = Vec::new();
    row.push(a);
    assert(Button::models(row@) =~= one(a@));
    push_row(rows, row);
}

fn push_two(rows: &mut Vec<Vec<Button>>, a: Button, b: Button)
    ensures
        rows_view(final(rows)@) == rows_view(old(rows)@).push(two(a@, b@)),
{
    let mut row: Vec<Button> = Vec::new();
    row.push(a);
    row.push(b);
    assert(Button::models(row@) =~= two(a@, b@));
    push_row(rows, row);
}

fn push_three(rows: &mut Vec<Vec<Button>>, a: Button, b: Button, c: Button)
    ensures
        rows_view(final(rows)@) == rows_view(old(rows)@).push(three(a@, b@, c@)),
{
    let mut row: Vec<Button> = Vec::new();
    row.push(a);
    row.push(b);
    row.push(c);
    assert(Button::models(row@) =~= three(a@, b@, c@));
    push_row(rows, row);
}

fn push_row(rows: &mut Vec<Vec<Button>>, row: Vec<Button>)
    ensures
        rows_view(final(rows)@) == rows_view(old(rows)@).push(Button::models(row@)),
{
    let ghost had = rows_view(rows@);
    rows.push(row);
    assert(rows_view(rows@) =~= had.push(Button::models(row@)));
}

fn no_rows() -> (r: Vec<Vec<Button>>)
    ensures
        rows_view(r@) == Seq::<Seq<ButtonModel>>::empty(),
{
    let r: Vec<Vec<Button>> = Vec::new();
    assert(rows_view(r@) =~= Seq::<Seq<ButtonModel>>::empty());
    r
}

fn push_home(rows: &mut Vec<Vec<Button>>)
    ensures
        rows_view(final(rows)@) == rows_view(old(rows)@).push(home_row()),
{
    push_one(rows, menu("🏠 主菜单", "home"));
}

/// Buttons in rows of `per`.
pub open spec fn in_rows(buttons: Seq<ButtonModel>, per: nat) -> Seq<Seq<ButtonModel>>
    decreases buttons.len(),
{
    if buttons.len() == 0 || per == 0 {
        Seq::empty()
    } else if buttons.len() <= per {
        seq![buttons]
    } else {
        seq![buttons.take(per as int)] + in_rows(buttons.skip(per as int), per)
    }
}

/// Puts buttons under the rows, `per` in a row.
fn push_buttons(rows: &mut Vec<Vec<Button>>, buttons: &Vec<Button>, per: usize)
    requires
        per > 0,
    ensures
        rows_view(final(rows)@) == rows_view(old(rows)@) + in_rows(Button::models(buttons@), per as nat),
{
    let ghost start = rows_view(rows@);
    let ghost all = Button::models(buttons@);
    let n: usize = buttons.len();
    let mut i: usize = 0;
    assert(all.skip(0) =~= all);
    while i < n
        invariant
            i <= n,
            n == buttons@.len(),
            per > 0,
            all == Button::models(buttons@),
            rows_view(rows@) + in_rows(all.skip(i as int), per as nat) == start + in_rows(all, per as nat),
        decreases n - i,
    {
        let end: usize = if n - i <= per {
            n
        } else {
            i + per
        };
        let ghost rest = all.skip(i as int);
        let ghost had = rows_view(rows@);
        let mut row: Vec<Button> = Vec::new();
        let mut k: usize = i;
        assert(Button::models(row@) =~= all.subrange(i as int, i as int));
        while k < end
            invariant
                i <= k <= end,
                end <= n,
                n == buttons@.len(),
                all == Button::models(buttons@),
                Button::models(row@) == all.subrange(i as int, k as int),
            decreases end - k,
        {
            let ghost before = Button::models(row@);
            row.push(buttons[k].clone());
            assert(Button::models(row@) =~= before.push(all[k as int]));
            assert(all.subrange(i as int, k + 1) =~= all.subrange(i as int, k as int).push(all[k as int]));
            k += 1;
        }
        push_row(rows, row);
        proof {
            let piece = all.subrange(i as int, end as int);
            assert(piece =~= rest.take(end - i));
            assert(all.skip(end as int) =~= rest.skip(end - i));
            if rest.len() <= per {
                assert(rest.take(end - i) =~= rest);
                assert(in_rows(all.skip(end as int), per as nat) =~= Seq::<Seq<ButtonModel>>::empty());
            }
            assert(rows_view(rows@) + in_rows(all.skip(end as int), per as nat) =~= had + in_rows(rest, per as nat));
        }
        i = end;
    }
    assert(in_rows(all.skip(i as int), per as nat) =~= Seq::<Seq<ButtonModel>>::empty());
    assert(rows_view(rows@) =~= start + in_rows(all, per as nat));
}

// ─── turning pages ───

/// How many pages a list fills: at least one.
pub open spec fn page_count(len: nat, size: nat) -> nat {
    if len == 0 {
        1
    } else {
        (len + size - 1) as nat / size
    }
}

/// The page that is shown: the last one where there is none of that number.
pub open spec fn page_shown(page: nat, len: nat, size: nat) -> nat {
    if page < page_count(len, size) {
        page
    } else {
        (page_count(len, size) - 1) as nat
    }
}

/// What stands on a page.
pub open spec fn page_items<T>(list: Seq<T>, page: nat, size: nat) -> Seq<T> {
    let from = page * size;
    let to = if from + size < list.len() {
        from + size
    } else {
        list.len()
    };
    list.subrange(from as int, to as int)
}

/// The page that an action turns to.
pub open spec fn at_page(action: ActionModel, page: usize) -> ActionModel {
    match action {
        ActionModel::CityPage { keyword, .. } => ActionModel::CityPage { keyword: keyword, page: page },
        ActionModel::SearchPage { keyword, .. } => ActionModel::SearchPage { keyword: keyword, page: page },
        ActionModel::Line { service, direction, .. } => ActionModel::Line {
            service: service,
            direction: direction,
            page: page,
        },
        other => other,
    }
}

/// The buttons that turn the page: back where there is a page before, on where there is one after.
pub open spec fn pager_row(action: ActionModel, page: nat, pages: nat) -> Seq<ButtonModel> {
    let back = if page > 0 {
        Seq::empty().push(act_button("⬅️ 上一页"@, at_page(action, (page - 1) as usize)))
    } else {
        Seq::empty()
    };
    if pages <= 1 {
        Seq::empty()
    } else if page + 1 < pages {
        back.push(act_button("➡️ 下一页"@, at_page(action, (page + 1) as usize)))
    } else {
        back
    }
}

/// The pager as a row of its own, where there is more than one page.
pub open spec fn pager_rows(action: ActionModel, page: nat, pages: nat) -> Seq<Seq<ButtonModel>> {
    if pager_row(action, page, pages).len() > 0 {
        Seq::empty().push(pager_row(action, page, pages))
    } else {
        Seq::empty()
    }
}

fn with_page(action: &Action, page: usize) -> (r: Action)
    ensures
        r@ == at_page(action@, page),
{
    match action {
        Action::CityPage { keyword, .. } => Action::CityPage { keyword: keyword.clone(), page: page },
        Action::SearchPage { keyword, .. } => Action::SearchPage { keyword: keyword.clone(), page: page },
        Action::Line { service, direction, .. } => Action::Line {
            service: service.clone(),
            direction: direction.clone(),
            page: page,
        },
        _ => action.clone(),
    }
}

/// Puts the pager under the rows, where there is more than one page.
fn push_pager(rows: &mut Vec<Vec<Button>>, action: &Action, page: usize, pages: usize)
    requires
        page < pages,
    ensures
        rows_view(final(rows)@) == rows_view(old(rows)@) + pager_rows(action@, page as nat, pages as nat),
{
    let ghost start = rows_view(rows@);
    let mut row: Vec<Button> = Vec::new();
    if pages > 1 {
        if page > 0 {
            row.push(act("⬅️ 上一页", with_page(action, page - 1)));
        }
        if page + 1 < pages {
            row.push(act("➡️ 下一页", with_page(action, page + 1)));
        }
    }
    assert(Button::models(row@) =~= pager_row(action@, page as nat, pages as nat));
    assert(Button::models(row@).len() == row@.len());
    if row.len() > 0 {
        push_row(rows, row);
    }
    assert(rows_view(rows@) =~= start + pager_rows(action@, page as nat, pages as nat));
}

fn count_pages(len: usize, size: usize) -> (r: usize)
    requires
        0 < size <= 1000,
    ensures
        r == page_count(len as nat, size as nat),
        r >= 1,
        (r - 1) * size <= len,
        r * size >= len,
{
    if len == 0 {
        1
    } else {
        let r: usize = (len - 1) / size + 1;
        assert((len + size - 1) as int / size as int == (len - 1) as int / size as int + 1) by (nonlinear_arith)
            requires
                len >= 1,
                size > 0,
        ;
        assert(((len - 1) as int / size as int) * size <= len - 1 && ((len - 1) as int / size as int + 1) * size
            >= len) by (nonlinear_arith)
            requires
                len >= 1,
                size > 0,
        ;
        r
    }
}

/// The first and the last position of a page, and which page it is.
fn page_bounds(page: usize, len: usize, size: usize) -> (r: (usize, usize, usize, usize))
    requires
        0 < size <= 1000,
    ensures
        ({
            let (shown, pages, from, to) = r;
            &&& pages == page_count(len as nat, size as nat)
            &&& shown == page_shown(page as nat, len as nat, size as nat)
            &&& shown < pages
            &&& from == shown * size
            &&& from <= to <= len
            &&& to == if from + size < len {
                (from + size) as int
            } else {
                len as int
            }
        }),
{
    let pages: usize = count_pages(len, size);
    let shown: usize = if page < pages {
        page
    } else {
        pages - 1
    };
    assert(shown * size <= (pages - 1) * size) by (nonlinear_arith)
        requires
            shown <= pages - 1,
            size > 0,
    ;
    let from: usize = shown * size;
    let to: usize = if len - from > size {
        from + size
    } else {
        len
    };
    (shown, pages, from, to)
}

/// Every item stands on one page, and only there.
pub proof fn law_pages_cover_the_list<T>(list: Seq<T>, size: nat, i: int)
    requires
        size > 0,
        0 <= i < list.len(),
    ensures
        ({
            let page = (i / size as int) as nat;
            &&& page < page_count(list.len(), size)
            &&& page_shown(page, list.len(), size) == page
            &&& 0 <= i - page * size < page_items(list, page, size).len()
            &&& page_items(list, page, size)[i - page * size] == list[i]
        }),
{
    let s = size as int;
    let n = list.len() as int;
    let q = i / s;
    assert(0 <= q && q * s <= i < q * s + s) by (nonlinear_arith)
        requires
            q == i / s,
            s > 0,
            i >= 0,
    ;
    assert(q < (n + s - 1) / s) by (nonlinear_arith)
        requires
            q == i / s,
            0 <= i < n,
            s > 0,
    ;
}

/// A text, or another where there is none.
pub open spec fn or_text(s: Option<Seq<char>>, other: Seq<char>) -> Seq<char> {
    match s {
        Some(s) => s,
        None => other,
    }
}

/// A text, or another where there is none.
pub fn text_or(s: &Option<String>, other: &str) -> (r: String)
    ensures
        r@ == or_text(opt_view(*s), other@),
{
    match s {
        Some(s) => s.clone(),
        None => copy(other),
    }
}

/// The action that shows the arrivals of a habit.
pub open spec fn habit_action(h: HabitModel) -> ActionModel {
    ActionModel::Live { service: h.service, direction: h.direction, order: h.order }
}

/// The row of a habit.
pub open spec fn habit_row(h: HabitModel) -> Seq<ButtonModel> {
    one(act_button("🕘 "@ + h.label, habit_action(h)))
}

/// The rows of habits.
pub open spec fn habit_rows(list: Seq<HabitModel>) -> Seq<Seq<ButtonModel>> {
    list.map_values(|h: HabitModel| habit_row(h))
}

fn push_habits(rows: &mut Vec<Vec<Button>>, habits: &Vec<&Habit>)
    ensures
        rows_view(final(rows)@) == rows_view(old(rows)@) + habit_rows(habit_refs(habits@)),
{
    let ghost start = rows_view(rows@);
    let ghost wanted = habit_rows(habit_refs(habits@));
    let mut i: usize = 0;
    assert(start + wanted.take(0) =~= start);
    while i < habits.len()
        invariant
            i <= habits@.len(),
            wanted == habit_rows(habit_refs(habits@)),
            rows_view(rows@) == start + wanted.take(i as int),
        decreases habits.len() - i,
    {
        let h = habits[i];
        assert(habit_refs(habits@)[i as int] == h@);
        assert(wanted[i as int] == habit_row(h@));
        push_one(
            rows,
            act(
                habit_button_label(h).as_str(),
                Action::Live { service: h.service.clone(), direction: h.direction.clone(), order: h.order },
            ),
        );
        assert(start + wanted.take(i + 1) =~= (start + wanted.take(i as int)).push(wanted[i as int]));
        i += 1;
    }
    assert(wanted.take(i as int) =~= wanted);
}

/// The lines of the suggestions on the start page.
pub open spec fn bullet_lines(list: Seq<HabitModel>, n: nat) -> Seq<char>
    decreases n,
{
    if n == 0 {
        Seq::empty()
    } else {
        bullet_lines(list, (n - 1) as nat) + ("· "@ + escaped(list[n - 1].label) + "\n"@)
    }
}

fn bullets(habits: &Vec<&Habit>) -> (r: String)
    ensures
        r@ == bullet_lines(habit_refs(habits@), habits@.len()),
{
    let n: usize = habits.len();
    let mut body = String::new();
    let mut i: usize = 0;
    while i < n
        invariant
            i <= n,
            n == habits@.len(),
            body@ == bullet_lines(habit_refs(habits@), i as nat),
        decreases n - i,
    {
        assert(habit_refs(habits@)[i as int] == habits@[i as int]@);
        let mut line = copy("· ");
        line.append(escape(habits[i].label.as_str()).as_str());
        line.append("\n");
        body.append(line.as_str());
        i += 1;
    }
    body
}

/// What the start page says of this hour.
pub open spec fn hour_text(list: Seq<HabitModel>, hour: u32) -> Seq<char> {
    if list.len() == 0 {
        "\n发送线路名（如「K155」）直接搜索，或用下面的按钮。"@
    } else {
        "\n<b>"@ + dec2(hour as nat) + " 点你常查的</b>（点按钮直接看到站）：\n"@ + bullet_lines(list, list.len())
    }
}

/// The row that opens the panel, where there is one.
pub open spec fn panel_rows(miniapp_url: Option<Seq<char>>) -> Seq<Seq<ButtonModel>> {
    match miniapp_url {
        Some(url) => Seq::empty().push(one(ButtonModel { label: "🧭 我的面板"@, target: TargetModel::Link(url) })),
        None => Seq::empty(),
    }
}

/// The start page.
pub open spec fn home_page(user: UserStateModel, hour: u32, miniapp_url: Option<Seq<char>>) -> PageModel {
    let list = suggested(user.habits, hour, 3);
    PageModel {
        text: "🚏 <b>WhereBus</b> · 实时公交\n\n当前城市：<b>"@ + escaped(or_text(user.city_label, "未选择"@)) + "</b>\n收藏 "@ + dec(user.favorites.len()) + " 条 · 累计查询 "@ + dec(user.queries as nat) + " 次\n"@ + hour_text(list, hour),
        board: BoardModel::Inline(
            habit_rows(list).push(
                two(menu_button("🔍 搜线路"@, "search"@), menu_button("📍 附近站点"@, "nearby"@)),
            ).push(two(menu_button("⭐ 我的收藏"@, "fav"@), menu_button("🔔 盯车"@, "watch"@))).push(
                two(menu_button("📊 我的习惯"@, "habit"@), menu_button("⚙️ 提醒设置"@, "settings"@)),
            ).push(two(menu_button("🏙 切换城市"@, "city"@), menu_button("❓ 使用说明"@, "help"@))) + panel_rows(miniapp_url),
        ),
    }
}

/// The start page.
pub fn home_view(user: &UserState, hour: u32, miniapp_url: &Option<String>) -> (r: Page)
    ensures
        r@ == home_page(user@, hour, opt_view(*miniapp_url)),
{
    assert(user@.favorites.len() == user.favorites@.len());
    let city = text_or(&user.city_label, "未选择");
    let mut t = copy("🚏 <b>WhereBus</b> · 实时公交\n\n当前城市：<b>");
    t.append(escape(city.as_str()).as_str());
    t.append("</b>\n收藏 ");
    t.append(decimal(user.favorites.len() as u64).as_str());
    t.append(" 条 · 累计查询 ");
    t.append(decimal(user.queries as u64).as_str());
    t.append(" 次\n");
    let list = user.suggestions(hour, 3);
    assert(habit_refs(list@).len() == list@.len());
    let mut extra = String::new();
    if list.len() == 0 {
        extra = copy("\n发送线路名（如「K155」）直接搜索，或用下面的按钮。");
    } else {
        extra = copy("\n<b>");
        extra.append(decimal2(hour as u64).as_str());
        extra.append(" 点你常查的</b>（点按钮直接看到站）：\n");
        extra.append(bullets(&list).as_str());
    }
    t.append(extra.as_str());
    let mut rows = no_rows();
    push_habits(&mut rows, &list);
    assert(rows_view(rows@) =~= habit_rows(habit_refs(list@)));
    push_two(&mut rows, menu("🔍 搜线路", "search"), menu("📍 附近站点", "nearby"));
    push_two(&mut rows, menu("⭐ 我的收藏", "fav"), menu("🔔 盯车", "watch"));
    push_two(&mut rows, menu("📊 我的习惯", "habit"), menu("⚙️ 提醒设置", "settings"));
    push_two(&mut rows, menu("🏙 切换城市", "city"), menu("❓ 使用说明", "help"));
    let ghost before = rows_view(rows@);
    match miniapp_url {
        Some(url) => {
            push_one(&mut rows, Button { label: copy("🧭 我的面板"), target: Target::Link(url.clone()) });
        },
        None => {},
    }
    assert(rows_view(rows@) =~= before + panel_rows(opt_view(*miniapp_url)));
    Page { text: t, board: Board::Inline(rows) }
}

/// A message that something went wrong, with the way back.
pub open spec fn error_page_of(text: Seq<char>) -> PageModel {
    PageModel { text: text, board: BoardModel::Inline(Seq::empty().push(home_row())) }
}

/// A message that something went wrong, with the way back.
pub fn error_page(text: &str) -> (r: Page)
    ensures
        r@ == error_page_of(text@),
{
    let mut rows = no_rows();
    push_home(&mut rows);
    Page { text: copy(text), board: Board::Inline(rows) }
}

// ─── cities ───

/// Whether a source answers to a keyword; the simulated one never does.
pub open spec fn city_matches(e: ServiceEntryModel, keyword: Seq<char>) -> bool {
    e.provider != "Debug"@ && (keyword.len() == 0 || has(e.city.name, keyword) || has(e.city.province, keyword) || has(
        e.provider,
        keyword,
    ))
}

/// The sources that answer to a keyword.
pub open spec fn matching_cities(services: Seq<ServiceEntryModel>, keyword: Seq<char>) -> Seq<ServiceEntryModel> {
    services.filter(|e: ServiceEntryModel| city_matches(e, keyword))
}

/// The sources that answer to a keyword.
pub fn find_cities(services: &Vec<ServiceEntry>, keyword: &str) -> (r: Vec<ServiceEntry>)
    ensures
        ServiceEntry::models(r@) == matching_cities(ServiceEntry::models(services@), keyword@),
{
    let ghost all = ServiceEntry::models(services@);
    let ghost p = |e: ServiceEntryModel| city_matches(e, keyword@);
    let mut r: Vec<ServiceEntry> = Vec::new();
    let mut i: usize = 0;
    assert(ServiceEntry::models(r@) =~= all.take(0).filter(p)) by {
        reveal(Seq::filter);
    }
    while i < services.len()
        invariant
            i <= services@.len(),
            all == ServiceEntry::models(services@),
            p == (|e: ServiceEntryModel| city_matches(e, keyword@)),
            ServiceEntry::models(r@) == all.take(i as int).filter(p),
        decreases services.len() - i,
    {
        proof {
            lemma_filter_next(all, p, i as int);
        }
        let e = &services[i];
        assert(all[i as int] == e@);
        if !same(e.provider.as_str(), "Debug") && (keyword.is_empty() || contains(e.city.name.as_str(), keyword) || contains(
            e.city.province.as_str(),
            keyword,
        ) || contains(e.provider.as_str(), keyword)) {
            let ghost had = ServiceEntry::models(r@);
            r.push(e.clone());
            assert(ServiceEntry::models(r@) =~= had.push(e@));
        }
        i += 1;
    }
    assert(all.take(i as int) =~= all);
    r
}

/// How a source for a city is called.
pub open spec fn service_label(e: ServiceEntryModel) -> Seq<char> {
    e.city.name + " · "@ + e.provider
}

/// The row of a source.
pub open spec fn city_row(e: ServiceEntryModel) -> Seq<ButtonModel> {
    one(
        act_button(
            e.city.province + " · "@ + service_label(e),
            ActionModel::PickService { service: e.id, label: service_label(e) },
        ),
    )
}

/// The page of cities.
pub open spec fn cities_page(matches: Seq<ServiceEntryModel>, keyword: Seq<char>, page: nat) -> PageModel {
    let pages = page_count(matches.len(), CITY_PAGE_SIZE as nat);
    let shown = page_shown(page, matches.len(), CITY_PAGE_SIZE as nat);
    if matches.len() == 0 {
        PageModel {
            text: "没有找到匹配「"@ + escaped(keyword) + "」的城市。换个关键词试试（支持城市名或省份）。注意：只有已接入数据源的城市才能查到。"@,
            board: BoardModel::Bare,
        }
    } else {
        PageModel {
            text: "找到 "@ + dec(matches.len()) + " 个匹配的城市 · 数据源（第 "@ + dec(shown + 1) + "/"@ + dec(pages) + " 页）\n选择一个作为你的默认城市："@,
            board: BoardModel::Inline(
                (page_items(matches, shown, CITY_PAGE_SIZE as nat).map_values(|e: ServiceEntryModel| city_row(e))
                    + pager_rows(ActionModel::CityPage { keyword: keyword, page: 0 }, shown, pages)).push(home_row()),
            ),
        }
    }
}

/// The page of cities.
pub fn cities_view(matches: &Vec<ServiceEntry>, keyword: &str, page: usize) -> (r: Page)
    ensures
        r@ == cities_page(ServiceEntry::models(matches@), keyword@, page as nat),
{
    let ghost list = ServiceEntry::models(matches@);
    assert(list.len() == matches@.len());
    if matches.len() == 0 {
        let mut t = copy("没有找到匹配「");
        t.append(escape(keyword).as_str());
        t.append("」的城市。换个关键词试试（支持城市名或省份）。注意：只有已接入数据源的城市才能查到。");
        return Page { text: t, board: Board::Bare };
    }
    let (shown, pages, from, to) = page_bounds(page, matches.len(), CITY_PAGE_SIZE);
    let ghost items = page_items(list, shown as nat, CITY_PAGE_SIZE as nat);
    let ghost wanted = items.map_values(|e: ServiceEntryModel| city_row(e));
    assert(items =~= list.subrange(from as int, to as int));
    let mut rows = no_rows();
    let mut i: usize = from;
    assert(rows_view(rows@) =~= wanted.take(0));
    while i < to
        invariant
            from <= i <= to,
            to <= matches@.len(),
            list == ServiceEntry::models(matches@),
            items == list.subrange(from as int, to as int),
            wanted == items.map_values(|e: ServiceEntryModel| city_row(e)),
            rows_view(rows@) == wanted.take(i - from),
        decreases to - i,
    {
        let e = &matches[i];
        assert(items[i - from] == e@);
        let mut label = copy(e.city.name.as_str());
        label.append(" · ");
        label.append(e.provider.as_str());
        let mut shown_label = copy(e.city.province.as_str());
        shown_label.append(" · ");
        shown_label.append(label.as_str());
        push_one(
            &mut rows,
            act(shown_label.as_str(), Action::PickService { service: e.id.clone(), label: label }),
        );
        assert(wanted[i - from] == city_row(e@));
        assert(wanted.take(i - from + 1) =~= wanted.take(i - from).push(wanted[i - from]));
        i += 1;
    }
    assert(wanted.take(to - from) =~= wanted);
    push_pager(&mut rows, &Action::CityPage { keyword: copy(keyword), page: 0 }, shown, pages);
    push_home(&mut rows);
    let mut t = copy("找到 ");
    t.append(decimal(matches.len() as u64).as_str());
    t.append(" 个匹配的城市 · 数据源（第 ");
    t.append(decimal(shown as u64 + 1).as_str());
    t.append("/");
    t.append(decimal(pages as u64).as_str());
    t.append(" 页）\n选择一个作为你的默认城市：");
    Page { text: t, board: Board::Inline(rows) }
}

// ─── lines ───

/// Whether a line answers by its name in lower case, or by one of its ends.
pub open spec fn answers(ends: EndpointsViewModel, small_name: Seq<char>, needle: Seq<char>, keyword: Seq<char>) -> bool {
    has(small_name, needle) || has(ends.origin, keyword) || has(ends.terminus, keyword)
}

/// Whether a line answers to a keyword: its name without regard to case, or one of its ends.
pub open spec fn route_matches(r: BusRouteModel, keyword: Seq<char>) -> bool {
    answers(r.endpoints, lowercased(r.name), lowercased(keyword), keyword)
}

/// Whether a line answers, given its name in lower case: the name is searched for `needle`, the ends for
/// `keyword`.
pub fn line_answers(ends: &EndpointsView, small_name: &str, needle: &str, keyword: &str) -> (r: bool)
    ensures
        r == answers(ends@, small_name@, needle@, keyword@),
{
    contains(small_name, needle) || contains(ends.origin.as_str(), keyword) || contains(ends.terminus.as_str(), keyword)
}

/// The lines that answer to a keyword.
pub open spec fn matching_lines(lines: Seq<BusRouteModel>, keyword: Seq<char>) -> Seq<BusRouteModel> {
    lines.filter(|r: BusRouteModel| route_matches(r, keyword))
}

/// The lines that answer to a keyword.
pub fn find_lines(lines: &Vec<BusRoute>, keyword: &str) -> (r: Vec<BusRoute>)
    ensures
        BusRoute::models(r@) == matching_lines(BusRoute::models(lines@), keyword@),
{
    let needle = lowercase(keyword);
    let ghost all = BusRoute::models(lines@);
    let ghost p = |r: BusRouteModel| route_matches(r, keyword@);
    let mut r: Vec<BusRoute> = Vec::new();
    let mut i: usize = 0;
    assert(BusRoute::models(r@) =~= all.take(0).filter(p)) by {
        reveal(Seq::filter);
    }
    while i < lines.len()
        invariant
            i <= lines@.len(),
            needle@ == lowercased(keyword@),
            all == BusRoute::models(lines@),
            p == (|r: BusRouteModel| route_matches(r, keyword@)),
            BusRoute::models(r@) == all.take(i as int).filter(p),
        decreases lines.len() - i,
    {
        proof {
            lemma_filter_next(all, p, i as int);
        }
        let route = &lines[i];
        assert(all[i as int] == route@);
        let name = lowercase(route.name.as_str());
        if line_answers(&route.endpoints, name.as_str(), needle.as_str(), keyword) {
            let ghost had = BusRoute::models(r@);
            r.push(route.clone());
            assert(BusRoute::models(r@) =~= had.push(route@));
        }
        i += 1;
    }
    assert(all.take(i as int) =~= all);
    r
}

/// A text, or another where it is empty.
pub open spec fn if_empty(s: Seq<char>, other: Seq<char>) -> Seq<char> {
    if s.len() == 0 {
        other
    } else {
        s
    }
}

fn filled<'a>(s: &'a str, other: &'a str) -> (r: &'a str)
    ensures
        r@ == if_empty(s@, other@),
{
    if s.is_empty() {
        other
    } else {
        s
    }
}

/// The label of the button of a line: with its end, by which the two directions differ.
pub open spec fn route_label(r: BusRouteModel) -> Seq<char> {
    if r.endpoints.terminus.len() == 0 {
        shortened(r.name, 14)
    } else {
        shortened(r.name, 8) + "→"@ + shortened(r.endpoints.terminus, 6)
    }
}

/// The lines of a line in the results.
pub open spec fn route_text(r: BusRouteModel) -> Seq<char> {
    "🚌 <b>"@ + escaped(r.name) + "</b>\n   "@ + escaped(if_empty(r.endpoints.origin, "起点待更新"@)) + " → "@ + escaped(if_empty(r.endpoints.terminus, "终点待更新"@)) + "\n"@
}

/// The lines of several lines in the results.
pub open spec fn routes_text(list: Seq<BusRouteModel>) -> Seq<char>
    decreases list.len(),
{
    if list.len() == 0 {
        Seq::empty()
    } else {
        routes_text(list.drop_last()) + route_text(list.last())
    }
}

/// The button of a line in the results.
pub open spec fn route_button(r: BusRouteModel, service: Seq<char>) -> ButtonModel {
    act_button(route_label(r), ActionModel::Line { service: service, direction: r.direction_id, page: 0 })
}

/// The page of search results.
pub open spec fn search_page(matches: Seq<BusRouteModel>, keyword: Seq<char>, page: nat, service: Seq<char>) -> PageModel {
    let pages = page_count(matches.len(), SEARCH_PAGE_SIZE as nat);
    let shown = page_shown(page, matches.len(), SEARCH_PAGE_SIZE as nat);
    let items = page_items(matches, shown, SEARCH_PAGE_SIZE as nat);
    if matches.len() == 0 {
        PageModel {
            text: "没有找到匹配「"@ + escaped(keyword) + "」的线路。换个关键词，或用 /city 确认城市是否正确。"@,
            board: BoardModel::Bare,
        }
    } else {
        PageModel {
            text: "🔍 「"@ + escaped(keyword) + "」找到 "@ + dec(matches.len()) + " 条线路（第 "@ + dec(shown + 1) + "/"@ + dec(pages) + " 页）\n\n"@ + routes_text(items),
            board: BoardModel::Inline(
                (in_rows(items.map_values(|r: BusRouteModel| route_button(r, service)), 3) + pager_rows(
                    ActionModel::SearchPage { keyword: keyword, page: 0 },
                    shown,
                    pages,
                )).push(home_row()),
            ),
        }
    }
}

fn route_line(route: &BusRoute) -> (r: String)
    ensures
        r@ == route_text(route@),
{
    let mut t = copy("🚌 <b>");
    t.append(escape(route.name.as_str()).as_str());
    t.append("</b>\n   ");
    t.append(escape(filled(route.endpoints.origin.as_str(), "起点待更新")).as_str());
    t.append(" → ");
    t.append(escape(filled(route.endpoints.terminus.as_str(), "终点待更新")).as_str());
    t.append("\n");
    t
}

fn route_key(route: &BusRoute, service: &str) -> (r: Button)
    ensures
        r@ == route_button(route@, service@),
{
    let label = if route.endpoints.terminus.as_str().is_empty() {
        shorten(route.name.as_str(), 14)
    } else {
        let mut l = shorten(route.name.as_str(), 8);
        l.append("→");
        l.append(shorten(route.endpoints.terminus.as_str(), 6).as_str());
        l
    };
    act(
        label.as_str(),
        Action::Line { service: copy(service), direction: route.direction_id.clone(), page: 0 },
    )
}

/// The page of search results.
pub fn search_view(matches: &Vec<BusRoute>, keyword: &str, page: usize, service: &str) -> (r: Page)
    ensures
        r@ == search_page(BusRoute::models(matches@), keyword@, page as nat, service@),
{
    let ghost list = BusRoute::models(matches@);
    assert(list.len() == matches@.len());
    if matches.len() == 0 {
        let mut t = copy("没有找到匹配「");
        t.append(escape(keyword).as_str());
        t.append("」的线路。换个关键词，或用 /city 确认城市是否正确。");
        return Page { text: t, board: Board::Bare };
    }
    let (shown, pages, from, to) = page_bounds(page, matches.len(), SEARCH_PAGE_SIZE);
    let ghost items = page_items(list, shown as nat, SEARCH_PAGE_SIZE as nat);
    let ghost wanted = items.map_values(|r: BusRouteModel| route_button(r, service@));
    assert(items =~= list.subrange(from as int, to as int));
    let mut body = String::new();
    let mut buttons: Vec<Button> = Vec::new();
    let mut i: usize = from;
    assert(Button::models(buttons@) =~= wanted.take(0));
    assert(items.take(0) =~= Seq::<BusRouteModel>::empty());
    while i < to
        invariant
            from <= i <= to,
            to <= matches@.len(),
            list == BusRoute::models(matches@),
            items == list.subrange(from as int, to as int),
            wanted == items.map_values(|r: BusRouteModel| route_button(r, service@)),
            body@ == routes_text(items.take(i - from)),
            Button::models(buttons@) == wanted.take(i - from),
        decreases to - i,
    {
        let route = &matches[i];
        assert(items[i - from] == route@);
        assert(items.take(i - from + 1).drop_last() =~= items.take(i - from));
        body.append(route_line(route).as_str());
        let ghost had = Button::models(buttons@);
        let key = route_key(route, service);
        buttons.push(key);
        assert(Button::models(buttons@) =~= had.push(wanted[i - from]));
        assert(wanted.take(i - from + 1) =~= wanted.take(i - from).push(wanted[i - from]));
        i += 1;
    }
    assert(wanted.take(to - from) =~= wanted);
    assert(items.take(to - from) =~= items);
    let mut rows = no_rows();
    push_buttons(&mut rows, &buttons, 3);
    assert(rows_view(rows@) =~= in_rows(wanted, 3));
    push_pager(&mut rows, &Action::SearchPage { keyword: copy(keyword), page: 0 }, shown, pages);
    push_home(&mut rows);
    let mut t = copy("🔍 「");
    t.append(escape(keyword).as_str());
    t.append("」找到 ");
    t.append(decimal(matches.len() as u64).as_str());
    t.append(" 条线路（第 ");
    t.append(decimal(shown as u64 + 1).as_str());
    t.append("/");
    t.append(decimal(pages as u64).as_str());
    t.append(" 页）\n\n");
    t.append(body.as_str());
    Page { text: t, board: Board::Inline(rows) }
}

/// The button of a stop.
pub open spec fn stop_button(s: LineStopModel, service: Seq<char>, key: Seq<char>) -> ButtonModel {
    act_button(
        dec(s.order as nat) + " "@ + shortened(s.name, 10) + (if stop_status_note_of(s.status) is Some {
            "*"@
        } else {
            ""@
        }),
        ActionModel::Live { service: service, direction: key, order: s.order },
    )
}

/// The row that turns to the other direction, where there is one.
pub open spec fn reverse_rows(reverse_id: Option<Seq<char>>, service: Seq<char>) -> Seq<Seq<ButtonModel>> {
    match reverse_id {
        Some(reverse) => Seq::empty().push(
            one(act_button("🔄 换方向"@, ActionModel::Line { service: service, direction: reverse, page: 0 })),
        ),
        None => Seq::empty(),
    }
}

/// The page of a line.
pub open spec fn line_page(d: LineDetailModel, city_label: Option<Seq<char>>, service: Seq<char>, page: nat) -> PageModel {
    let stops = d.topology.stations;
    let pages = page_count(stops.len(), STATION_PAGE_SIZE as nat);
    let shown = page_shown(page, stops.len(), STATION_PAGE_SIZE as nat);
    let items = page_items(stops, shown, STATION_PAGE_SIZE as nat);
    PageModel {
        text: line_detail_text_of(d, or_text(city_label, service)) + "（第 "@ + dec(shown + 1) + "/"@ + dec(pages) + " 页）"@,
        board: BoardModel::Inline(
            (in_rows(items.map_values(|s: LineStopModel| stop_button(s, service, d.direction_id)), 2) + pager_rows(
                ActionModel::Line { service: service, direction: d.direction_id, page: 0 },
                shown,
                pages,
            ) + reverse_rows(d.reverse_id, service)).push(home_row()),
        ),
    }
}

fn stop_key(stop: &LineStop, service: &str, key: &str) -> (r: Button)
    ensures
        r@ == stop_button(stop@, service@, key@),
{
    let flag = match stop_status_note(stop.status) {
        Some(_) => "*",
        None => "",
    };
    let mut label = decimal(stop.order as u64);
    label.append(" ");
    label.append(shorten(stop.name.as_str(), 10).as_str());
    label.append(flag);
    act(label.as_str(), Action::Live { service: copy(service), direction: copy(key), order: stop.order })
}

/// The page of a line.
pub fn line_view(detail: &LineDetail, city_label: &Option<String>, service: &str, page: usize) -> (r: Page)
    ensures
        r@ == line_page(detail@, opt_view(*city_label), service@, page as nat),
{
    let stops = &detail.topology.stations;
    let key = detail.direction_id.as_str();
    let ghost list = LineStop::models(stops@);
    assert(list.len() == stops@.len());
    let (shown, pages, from, to) = page_bounds(page, stops.len(), STATION_PAGE_SIZE);
    let ghost items = page_items(list, shown as nat, STATION_PAGE_SIZE as nat);
    let ghost wanted = items.map_values(|s: LineStopModel| stop_button(s, service@, key@));
    assert(items =~= list.subrange(from as int, to as int));
    let mut buttons: Vec<Button> = Vec::new();
    let mut i: usize = from;
    assert(Button::models(buttons@) =~= wanted.take(0));
    while i < to
        invariant
            from <= i <= to,
            to <= stops@.len(),
            list == LineStop::models(stops@),
            items == list.subrange(from as int, to as int),
            wanted == items.map_values(|s: LineStopModel| stop_button(s, service@, key@)),
            Button::models(buttons@) == wanted.take(i - from),
        decreases to - i,
    {
        assert(items[i - from] == stops@[i as int]@);
        let ghost had = Button::models(buttons@);
        let button = stop_key(&stops[i], service, key);
        buttons.push(button);
        assert(Button::models(buttons@) =~= had.push(wanted[i - from]));
        assert(wanted.take(i - from + 1) =~= wanted.take(i - from).push(wanted[i - from]));
        i += 1;
    }
    assert(wanted.take(to - from) =~= wanted);
    let mut rows = no_rows();
    push_buttons(&mut rows, &buttons, 2);
    assert(rows_view(rows@) =~= in_rows(wanted, 2));
    push_pager(
        &mut rows,
        &Action::Line { service: copy(service), direction: copy(key), page: 0 },
        shown,
        pages,
    );
    let ghost before = rows_view(rows@);
    match &detail.reverse_id {
        Some(reverse) => {
            push_one(
                &mut rows,
                act("🔄 换方向", Action::Line { service: copy(service), direction: reverse.clone(), page: 0 }),
            );
        },
        None => {},
    }
    assert(rows_view(rows@) =~= before + reverse_rows(detail@.reverse_id, service@));
    push_home(&mut rows);
    let label = text_or(city_label, service);
    let mut t = line_detail_text(detail, label.as_str());
    t.append("（第 ");
    t.append(decimal(shown as u64 + 1).as_str());
    t.append("/");
    t.append(decimal(pages as u64).as_str());
    t.append(" 页）");
    Page { text: t, board: Board::Inline(rows) }
}

// ─── arrivals ───

/// How the boarding stop is called: by its number where the line does not have it.
pub open spec fn stop_label(stops: Seq<LineStopModel>, order: u32) -> Seq<char> {
    let at = stop_index(stops, order);
    if at < stops.len() {
        stops[at].name
    } else {
        "第 "@ + dec(order as nat) + " 站"@
    }
}

/// How the boarding stop is called.
pub fn stop_name(stops: &[LineStop], order: u32) -> (r: String)
    ensures
        r@ == stop_label(LineStop::models(stops@), order),
{
    let at: usize = find_stop(stops, order);
    if at < stops.len() {
        assert(LineStop::models(stops@)[at as int] == stops@[at as int]@);
        stops[at].name.clone()
    } else {
        let mut r = copy("第 ");
        r.append(decimal(order as u64).as_str());
        r.append(" 站");
        r
    }
}

/// The page of a line on which a stop stands, if the stops are numbered from 1.
pub open spec fn stop_page(order: u32) -> usize {
    (if order > 0 {
        (order - 1) / 10
    } else {
        0
    }) as usize
}

/// The page of arrivals.
pub open spec fn live_page(
    d: LineDetailModel,
    realtime: RealTimeDataModel,
    user: UserStateModel,
    service: Seq<char>,
    order: u32,
    clock: Seq<char>,
) -> PageModel {
    let key = d.direction_id;
    let favorite = has_trip(user.favorites, service, key, order);
    PageModel {
        text: live_text_of(d, realtime, order, or_text(user.city_label, service), clock, favorite),
        board: BoardModel::Inline(
            Seq::empty().push(
                two(
                    act_button("🔄 刷新"@, ActionModel::Live { service: service, direction: key, order: order }),
                    act_button(
                        if favorite {
                            "💔 取消收藏"@
                        } else {
                            "⭐ 收藏这一趟"@
                        },
                        ActionModel::FavToggle { service: service, direction: key, order: order },
                    ),
                ),
            ).push(
                one(
                    act_button(
                        "🔔 盯这趟车（到站前提醒我）"@,
                        ActionModel::WatchSetup { service: service, direction: key, order: order },
                    ),
                ),
            ).push(
                two(
                    act_button(
                        "🚏 换上车站"@,
                        ActionModel::Line { service: service, direction: key, page: stop_page(order) },
                    ),
                    menu_button("⭐ 我的收藏"@, "fav"@),
                ),
            ).push(home_row()),
        ),
    }
}

/// The page of arrivals.
pub fn live_view(
    detail: &LineDetail,
    realtime: &RealTimeData,
    user: &UserState,
    service: &str,
    order: u32,
    clock: &str,
) -> (r: Page)
    ensures
        r@ == live_page(detail@, realtime@, user@, service@, order, clock@),
{
    let key = detail.direction_id.as_str();
    let favorite = user.is_favorite(service, key, order);
    let label = text_or(&user.city_label, service);
    let text = live_text(detail, realtime, order, label.as_str(), clock, favorite);
    let mut rows = no_rows();
    push_two(
        &mut rows,
        act("🔄 刷新", Action::Live { service: copy(service), direction: copy(key), order: order }),
        act(
            if favorite {
                "💔 取消收藏"
            } else {
                "⭐ 收藏这一趟"
            },
            Action::FavToggle { service: copy(service), direction: copy(key), order: order },
        ),
    );
    push_one(
        &mut rows,
        act(
            "🔔 盯这趟车（到站前提醒我）",
            Action::WatchSetup { service: copy(service), direction: copy(key), order: order },
        ),
    );
    let page: usize = if order > 0 {
        ((order - 1) / 10) as usize
    } else {
        0
    };
    push_two(
        &mut rows,
        act("🚏 换上车站", Action::Line { service: copy(service), direction: copy(key), page: page }),
        menu("⭐ 我的收藏", "fav"),
    );
    push_home(&mut rows);
    Page { text: text, board: Board::Inline(rows) }
}

/// The page that says that the arrivals could not be had.
pub open spec fn live_error_page(error: Seq<char>, service: Seq<char>, key: Seq<char>, order: u32) -> PageModel {
    PageModel {
        text: error,
        board: BoardModel::Inline(
            Seq::empty().push(
                one(act_button("🔄 重试"@, ActionModel::Live { service: service, direction: key, order: order })),
            ).push(home_row()),
        ),
    }
}

/// The page that says that the arrivals could not be had.
pub fn live_error_view(error: &str, service: &str, key: &str, order: u32) -> (r: Page)
    ensures
        r@ == live_error_page(error@, service@, key@, order),
{
    let mut rows = no_rows();
    push_one(
        &mut rows,
        act("🔄 重试", Action::Live { service: copy(service), direction: copy(key), order: order }),
    );
    push_home(&mut rows);
    Page { text: copy(error), board: Board::Inline(rows) }
}

// ─── watching ───

/// The action that watches a vehicle of a line.
pub open spec fn watch_action(service: Seq<char>, key: Seq<char>, order: u32, bus: Option<Seq<char>>) -> ActionModel {
    ActionModel::WatchStart { service: service, direction: key, order: order, bus: bus }
}

/// The lines of the first `n` vehicles in the list, the nearest coming first; none of one that has
/// passed.
pub open spec fn choice_lines(buses: Seq<BusPositionModel>, stops: Seq<LineStopModel>, order: u32, n: nat) -> Seq<char>
    decreases n,
{
    if n == 0 {
        Seq::empty()
    } else {
        let before = choice_lines(buses, stops, order, (n - 1) as nat);
        let at = by_nearness(buses, stops, order)[n - 1] as int;
        let v = described(buses[at], at, stops, order);
        if v.passed {
            before
        } else {
            before + ("🚌 "@ + escaped(v.identity) + "\n   "@ + escaped(v.location) + "\n   "@ + escaped(v.estimate) + "\n"@)
        }
    }
}

/// Whether a vehicle can be waited for: it has not passed, and it has a number to be known by.
pub open spec fn can_wait_for(bus: BusPositionModel, index: int, stops: Seq<LineStopModel>, order: u32) -> bool {
    !described(bus, index, stops, order).passed && !is_blank(bus.bus_id)
}

/// The rows of those of the first `n` vehicles in the list that can be waited for.
pub open spec fn choice_rows(
    buses: Seq<BusPositionModel>,
    stops: Seq<LineStopModel>,
    service: Seq<char>,
    key: Seq<char>,
    order: u32,
    n: nat,
) -> Seq<Seq<ButtonModel>>
    decreases n,
{
    if n == 0 {
        Seq::empty()
    } else {
        let before = choice_rows(buses, stops, service, key, order, (n - 1) as nat);
        let at = by_nearness(buses, stops, order)[n - 1] as int;
        let bus = buses[at];
        if can_wait_for(bus, at, stops, order) {
            before.push(
                one(
                    act_button(
                        "🚌 "@ + shortened(described(bus, at, stops, order).identity, 22),
                        watch_action(service, key, order, Some(bus.bus_id)),
                    ),
                ),
            )
        } else {
            before
        }
    }
}

/// The rules that apply where nobody has changed them.
pub open spec fn default_rules(defaults: AlertSettings) -> Seq<char> {
    "\n默认规则：还有 "@ + dec(defaults.alert_stations as nat) + " 站时提醒一次，"@ + dec(defaults.alert_distance_m as nat) + " 米内每 "@ + dec(defaults.repeat_secs as nat) + " 秒重复提醒，每 "@ + dec(defaults.poll_secs as nat) + " 秒刷新一次卡片。可在 /settings 修改。"@
}

/// The page on which a vehicle to wait for is chosen.
pub open spec fn watch_setup_page(
    d: LineDetailModel,
    realtime: RealTimeDataModel,
    service: Seq<char>,
    order: u32,
    defaults: AlertSettings,
) -> PageModel {
    let stops = d.topology.stations;
    let n = realtime.buses.len();
    let choices = choice_rows(realtime.buses, stops, service, d.direction_id, order, n);
    PageModel {
        text: "🔔 <b>盯车</b>\n"@ + escaped(d.name) + " · 上车站「"@ + escaped(stop_label(d.topology.stations, order)) + "」\n\n选择你要等的车：\n"@ + choice_lines(realtime.buses, stops, order, n) + (if choices.len() == 0 {
            "\n上游当前没有可单独指定的车辆（没有车辆编号或暂无在途车），可以先用「最近的一班」。\n"@
        } else {
            ""@
        }) + default_rules(defaults),
        board: BoardModel::Inline(
            (Seq::empty().push(
                one(act_button("⚡ 最近的一班（自动跟随）"@, watch_action(service, d.direction_id, order, None))),
            ) + choices).push(one(menu_button("⚙️ 提醒设置"@, "settings"@))).push(home_row()),
        ),
    }
}

/// The page on which a vehicle to wait for is chosen.
pub fn watch_setup_view(
    detail: &LineDetail,
    realtime: &RealTimeData,
    service: &str,
    order: u32,
    defaults: &AlertSettings,
) -> (r: Page)
    ensures
        r@ == watch_setup_page(detail@, realtime@, service@, order, *defaults),
{
    let stops = detail.topology.stations.as_slice();
    let key = detail.direction_id.as_str();
    let name = stop_name(stops, order);
    let ghost all = LineStop::models(stops@);
    let ghost list = BusPosition::models(realtime.buses@);
    let mut rows = no_rows();
    push_one(
        &mut rows,
        act(
            "⚡ 最近的一班（自动跟随）",
            Action::WatchStart { service: copy(service), direction: copy(key), order: order, bus: None },
        ),
    );
    let ghost first = rows_view(rows@);
    let mut body = String::new();
    let mut chosen: usize = 0;
    let n: usize = realtime.buses.len();
    let shown = nearest_first(&realtime.buses, stops, order);
    let mut i: usize = 0;
    assert(first + choice_rows(list, all, service@, key@, order, 0) =~= first);
    while i < n
        invariant
            i <= n,
            chosen <= i,
            n == realtime.buses@.len(),
            n == shown@.len(),
            all == LineStop::models(stops@),
            list == BusPosition::models(realtime.buses@),
            shown@ == by_nearness(list, all, order),
            forall|k: int| 0 <= k < shown@.len() ==> (#[trigger] shown@[k]) < n,
            body@ == choice_lines(list, all, order, i as nat),
            chosen == choice_rows(list, all, service@, key@, order, i as nat).len(),
            rows_view(rows@) == first + choice_rows(list, all, service@, key@, order, i as nat),
        decreases n - i,
    {
        let at: usize = shown[i];
        let bus = &realtime.buses[at];
        assert(list[at as int] == bus@);
        let view = describe_bus(bus, at, stops, order);
        if !view.passed {
            let mut line = copy("🚌 ");
            line.append(escape(view.identity.as_str()).as_str());
            line.append("\n   ");
            line.append(escape(view.location.as_str()).as_str());
            line.append("\n   ");
            line.append(escape(view.estimate.as_str()).as_str());
            line.append("\n");
            body.append(line.as_str());
            if !blank(bus.bus_id.as_str()) {
                let mut label = copy("🚌 ");
                label.append(shorten(view.identity.as_str(), 22).as_str());
                push_one(
                    &mut rows,
                    act(
                        label.as_str(),
                        Action::WatchStart {
                            service: copy(service),
                            direction: copy(key),
                            order: order,
                            bus: Some(bus.bus_id.clone()),
                        },
                    ),
                );
                chosen += 1;
                assert(rows_view(rows@) =~= first + choice_rows(list, all, service@, key@, order, (i + 1) as nat));
            }
        }
        i += 1;
    }
    push_one(&mut rows, menu("⚙️ 提醒设置", "settings"));
    push_home(&mut rows);
    let mut t = copy("🔔 <b>盯车</b>\n");
    t.append(escape(detail.name.as_str()).as_str());
    t.append(" · 上车站「");
    t.append(escape(name.as_str()).as_str());
    t.append("」\n\n选择你要等的车：\n");
    t.append(body.as_str());
    t.append(
        if chosen == 0 {
            "\n上游当前没有可单独指定的车辆（没有车辆编号或暂无在途车），可以先用「最近的一班」。\n"
        } else {
            ""
        },
    );
    t.append(rules_line(defaults).as_str());
    Page { text: t, board: Board::Inline(rows) }
}

fn rules_line(defaults: &AlertSettings) -> (r: String)
    ensures
        r@ == default_rules(*defaults),
{
    let mut t = copy("\n默认规则：还有 ");
    t.append(decimal(defaults.alert_stations as u64).as_str());
    t.append(" 站时提醒一次，");
    t.append(decimal(defaults.alert_distance_m as u64).as_str());
    t.append(" 米内每 ");
    t.append(decimal(defaults.repeat_secs as u64).as_str());
    t.append(" 秒重复提醒，每 ");
    t.append(decimal(defaults.poll_secs as u64).as_str());
    t.append(" 秒刷新一次卡片。可在 /settings 修改。");
    t
}

/// The card of a watch that is over.
pub open spec fn finished_page(w: WatchSpecModel, reason: Seq<char>) -> PageModel {
    PageModel {
        text: "⏹ <b>盯车已结束</b>\n"@ + escaped(w.line_name) + " @ "@ + escaped(w.station_name) + "\n\n"@ + escaped(reason),
        board: BoardModel::Inline(
            Seq::empty().push(
                one(act_button("🔔 再盯一次"@, watch_action(w.service, w.direction, w.order, w.target_bus))),
            ).push(
                one(
                    act_button(
                        "🚌 查看到站"@,
                        ActionModel::Live { service: w.service, direction: w.direction, order: w.order },
                    ),
                ),
            ).push(home_row()),
        ),
    }
}

/// The card of a watch that is over.
pub fn finished_view(spec: &WatchSpec, reason: &str) -> (r: Page)
    ensures
        r@ == finished_page(spec@, reason@),
{
    let mut rows = no_rows();
    push_one(
        &mut rows,
        act(
            "🔔 再盯一次",
            Action::WatchStart {
                service: spec.service.clone(),
                direction: spec.direction.clone(),
                order: spec.order,
                bus: spec.target_bus.clone(),
            },
        ),
    );
    push_one(
        &mut rows,
        act(
            "🚌 查看到站",
            Action::Live { service: spec.service.clone(), direction: spec.direction.clone(), order: spec.order },
        ),
    );
    push_home(&mut rows);
    let mut t = copy("⏹ <b>盯车已结束</b>\n");
    t.append(escape(spec.line_name.as_str()).as_str());
    t.append(" @ ");
    t.append(escape(spec.station_name.as_str()).as_str());
    t.append("\n\n");
    t.append(escape(reason).as_str());
    Page { text: t, board: Board::Inline(rows) }
}

/// What stands under the card of a watch.
pub open spec fn watch_board() -> BoardModel {
    BoardModel::Inline(
        Seq::empty().push(
            two(act_button("⏹ 停止盯车"@, ActionModel::WatchStop), menu_button("⚙️ 提醒设置"@, "settings"@)),
        ).push(home_row()),
    )
}

/// What stands under the card of a watch.
pub fn watch_keyboard() -> (r: Board)
    ensures
        r@ == watch_board(),
{
    let mut rows = no_rows();
    push_two(&mut rows, act("⏹ 停止盯车", Action::WatchStop), menu("⚙️ 提醒设置", "settings"));
    push_home(&mut rows);
    Board::Inline(rows)
}

/// The page that says that the line does not have the boarding stop.
pub open spec fn missing_stop_page(d: LineDetailModel, service: Seq<char>, order: u32) -> PageModel {
    PageModel {
        text: "「"@ + escaped(d.name) + "」当前没有第 "@ + dec(order as nat) + " 站，线路站点可能已调整，请重新选择上车站。"@,
        board: BoardModel::Inline(
            Seq::empty().push(
                one(
                    act_button(
                        "🚏 重新选上车站"@,
                        ActionModel::Line { service: service, direction: d.direction_id, page: 0 },
                    ),
                ),
            ).push(home_row()),
        ),
    }
}

/// The page that says that the line does not have the boarding stop.
pub fn missing_stop_view(detail: &LineDetail, service: &str, order: u32) -> (r: Page)
    ensures
        r@ == missing_stop_page(detail@, service@, order),
{
    let mut rows = no_rows();
    push_one(
        &mut rows,
        act(
            "🚏 重新选上车站",
            Action::Line { service: copy(service), direction: detail.direction_id.clone(), page: 0 },
        ),
    );
    push_home(&mut rows);
    let mut t = copy("「");
    t.append(escape(detail.name.as_str()).as_str());
    t.append("」当前没有第 ");
    t.append(decimal(order as u64).as_str());
    t.append(" 站，线路站点可能已调整，请重新选择上车站。");
    Page { text: t, board: Board::Inline(rows) }
}

// ─── settings ───

/// The row of a setting.
pub open spec fn setting_row(alerts: AlertSettings, field: AlertField) -> Seq<ButtonModel> {
    three(
        act_button("➖"@, ActionModel::SettingsAdjust { field: field, steps: (-1) as i64 }),
        menu_button(
            field_label(field) + " "@ + dec(setting(alerts, field) as nat) + field_unit(field),
            "settings"@,
        ),
        act_button("➕"@, ActionModel::SettingsAdjust { field: field, steps: 1 }),
    )
}

/// The page of settings.
pub open spec fn settings_page(alerts: AlertSettings, using_defaults: bool) -> PageModel {
    PageModel {
        text: alert_settings_text_of(alerts, using_defaults),
        board: BoardModel::Inline(
            Seq::empty().push(setting_row(alerts, AlertField::Poll)).push(
                setting_row(alerts, AlertField::Stations),
            ).push(setting_row(alerts, AlertField::Distance)).push(setting_row(alerts, AlertField::Repeat)).push(
                setting_row(alerts, AlertField::MaxMinutes),
            ).push(one(act_button("↩️ 恢复默认"@, ActionModel::SettingsReset))).push(home_row()),
        ),
    }
}

fn push_setting(rows: &mut Vec<Vec<Button>>, alerts: &AlertSettings, field: AlertField)
    ensures
        rows_view(final(rows)@) == rows_view(old(rows)@).push(setting_row(*alerts, field)),
{
    let mut label = copy(field.label());
    label.append(" ");
    label.append(decimal(alerts.get(field)).as_str());
    label.append(field.unit());
    push_three(
        rows,
        act("➖", Action::SettingsAdjust { field: field, steps: -1 }),
        menu(label.as_str(), "settings"),
        act("➕", Action::SettingsAdjust { field: field, steps: 1 }),
    );
}

/// The page of settings.
pub fn settings_view(alerts: &AlertSettings, using_defaults: bool) -> (r: Page)
    ensures
        r@ == settings_page(*alerts, using_defaults),
{
    let mut rows = no_rows();
    push_setting(&mut rows, alerts, AlertField::Poll);
    push_setting(&mut rows, alerts, AlertField::Stations);
    push_setting(&mut rows, alerts, AlertField::Distance);
    push_setting(&mut rows, alerts, AlertField::Repeat);
    push_setting(&mut rows, alerts, AlertField::MaxMinutes);
    push_one(&mut rows, act("↩️ 恢复默认", Action::SettingsReset));
    push_home(&mut rows);
    Page { text: alert_settings_text(alerts, using_defaults), board: Board::Inline(rows) }
}

/// The row of a favourite that can be watched.
pub open spec fn watch_favorite_row(f: FavoriteModel) -> Seq<ButtonModel> {
    one(
        act_button(
            "🔔 "@ + shortened(at_stop(f.line_name, f.station_name), 24),
            ActionModel::WatchSetup { service: f.service, direction: f.direction, order: f.order },
        ),
    )
}

/// The page of the watch.
pub open spec fn watch_page(user: UserStateModel, poll_secs: u64) -> PageModel {
    match user.watch {
        Some(w) => PageModel {
            text: "🔔 <b>正在盯车</b>\n"@ + escaped(watch_label(w)) + "\n\n卡片消息会每 "@ + dec(poll_secs as nat) + " 秒自动更新；也可以直接停止。"@,
            board: BoardModel::Inline(
                Seq::empty().push(one(act_button("⏹ 停止盯车"@, ActionModel::WatchStop))).push(
                    one(menu_button("⚙️ 提醒设置"@, "settings"@)),
                ).push(home_row()),
            ),
        },
        None => if user.favorites.len() == 0 {
            PageModel {
                text: "🔔 <b>盯车</b>\n\n还没有进行中的盯车。\n先搜索线路并选好上车站，在实时到站页点「🔔 盯这趟车」即可。"@,
                board: BoardModel::Inline(
                    Seq::empty().push(one(menu_button("🔍 搜线路"@, "search"@))).push(home_row()),
                ),
            }
        } else {
            PageModel {
                text: "🔔 <b>盯车</b>\n\n从收藏里选一个车次开始盯车，或先搜索线路。"@,
                board: BoardModel::Inline(
                    user.favorites.map_values(|f: FavoriteModel| watch_favorite_row(f)).push(home_row()),
                ),
            }
        },
    }
}

/// The page of the watch.
pub fn watch_view(user: &UserState, poll_secs: u64) -> (r: Page)
    ensures
        r@ == watch_page(user@, poll_secs),
{
    let mut rows = no_rows();
    match &user.watch {
        Some(spec) => {
            push_one(&mut rows, act("⏹ 停止盯车", Action::WatchStop));
            push_one(&mut rows, menu("⚙️ 提醒设置", "settings"));
            push_home(&mut rows);
            let mut t = copy("🔔 <b>正在盯车</b>\n");
            t.append(escape(spec.label().as_str()).as_str());
            t.append("\n\n卡片消息会每 ");
            t.append(decimal(poll_secs as u64).as_str());
            t.append(" 秒自动更新；也可以直接停止。");
            Page { text: t, board: Board::Inline(rows) }
        },
        None => {
            assert(user@.favorites.len() == user.favorites@.len());
            if user.favorites.len() == 0 {
                push_one(&mut rows, menu("🔍 搜线路", "search"));
                push_home(&mut rows);
                return Page {
                    text: copy(
                        "🔔 <b>盯车</b>\n\n还没有进行中的盯车。\n先搜索线路并选好上车站，在实时到站页点「🔔 盯这趟车」即可。",
                    ),
                    board: Board::Inline(rows),
                };
            }
            let ghost wanted = user@.favorites.map_values(|f: FavoriteModel| watch_favorite_row(f));
            let mut i: usize = 0;
            assert(rows_view(rows@) =~= wanted.take(0));
            while i < user.favorites.len()
                invariant
                    i <= user.favorites@.len(),
                    wanted == user@.favorites.map_values(|f: FavoriteModel| watch_favorite_row(f)),
                    rows_view(rows@) == wanted.take(i as int),
                decreases user.favorites.len() - i,
            {
                let f = &user.favorites[i];
                assert(user@.favorites[i as int] == f@);
                let mut label = copy("🔔 ");
                label.append(shorten(f.label().as_str(), 24).as_str());
                push_one(
                    &mut rows,
                    act(
                        label.as_str(),
                        Action::WatchSetup {
                            service: f.service.clone(),
                            direction: f.direction.clone(),
                            order: f.order,
                        },
                    ),
                );
                assert(wanted[i as int] == watch_favorite_row(f@));
                assert(wanted.take(i + 1) =~= wanted.take(i as int).push(wanted[i as int]));
                i += 1;
            }
            assert(wanted.take(i as int) =~= wanted);
            push_home(&mut rows);
            Page {
                text: copy("🔔 <b>盯车</b>\n\n从收藏里选一个车次开始盯车，或先搜索线路。"),
                board: Board::Inline(rows),
            }
        },
    }
}

// ─── favourites and habits ───

/// What favourites are ordered by: the most hits first, then the latest.
pub open spec fn hits_key(f: FavoriteModel) -> Seq<u64> {
    seq![(u64::MAX - f.hits) as u64, (u64::MAX - f.last_at) as u64]
}

/// The favourites, the most used first.
pub open spec fn by_hits(favorites: Seq<FavoriteModel>) -> Seq<FavoriteModel> {
    arranged(favorites, stable_order(favorites.map_values(|f: FavoriteModel| hits_key(f))))
}

/// The lines of a favourite.
pub open spec fn favorite_line(f: FavoriteModel) -> Seq<char> {
    "🚌 <b>"@ + escaped(f.line_name) + "</b> @ "@ + escaped(f.station_name) + "\n   "@ + escaped(f.city_label) + " · 查过 "@ + dec(f.hits as nat) + " 次\n"@
}

/// The lines of favourites.
pub open spec fn favorite_lines(list: Seq<FavoriteModel>) -> Seq<char>
    decreases list.len(),
{
    if list.len() == 0 {
        Seq::empty()
    } else {
        favorite_lines(list.drop_last()) + favorite_line(list.last())
    }
}

/// The row of a favourite.
pub open spec fn favorite_row(f: FavoriteModel) -> Seq<ButtonModel> {
    two(
        act_button(
            "🚌 "@ + shortened(at_stop(f.line_name, f.station_name), 24),
            ActionModel::Live { service: f.service, direction: f.direction, order: f.order },
        ),
        act_button("🗑"@, ActionModel::FavRemove { service: f.service, direction: f.direction, order: f.order }),
    )
}

/// The page of favourites.
pub open spec fn favorites_page(user: UserStateModel) -> PageModel {
    if user.favorites.len() == 0 {
        PageModel {
            text: "⭐ <b>我的收藏</b>\n\n还没有收藏。查看任意线路的实时到站后，点「⭐ 收藏这一趟」即可保存线路 + 上车站的组合。"@,
            board: BoardModel::Inline(Seq::empty().push(one(menu_button("🔍 搜线路"@, "search"@))).push(home_row())),
        }
    } else {
        let list = by_hits(user.favorites);
        PageModel {
            text: "⭐ <b>我的收藏</b>（"@ + dec(user.favorites.len()) + " 条）\n\n"@ + favorite_lines(list),
            board: BoardModel::Inline(list.map_values(|f: FavoriteModel| favorite_row(f)).push(home_row())),
        }
    }
}

fn hits_order(favorites: &Vec<Favorite>) -> (r: Vec<usize>)
    ensures
        arranged(Favorite::models(favorites@), r@) == by_hits(Favorite::models(favorites@)),
        r@.len() == favorites@.len(),
        forall|j: int| 0 <= j < r@.len() ==> (#[trigger] r@[j]) < favorites@.len(),
{
    let ghost list = Favorite::models(favorites@);
    let ghost wanted = list.map_values(|f: FavoriteModel| hits_key(f));
    let mut keys: Vec<Vec<u64>> = Vec::new();
    let mut i: usize = 0;
    assert(key_views(keys@) =~= wanted.take(0));
    while i < favorites.len()
        invariant
            i <= favorites@.len(),
            list == Favorite::models(favorites@),
            wanted == list.map_values(|f: FavoriteModel| hits_key(f)),
            key_views(keys@) == wanted.take(i as int),
        decreases favorites.len() - i,
    {
        let f = &favorites[i];
        assert(list[i as int] == f@);
        let ghost had = key_views(keys@);
        let mut key: Vec<u64> = Vec::new();
        key.push(u64::MAX - f.hits as u64);
        key.push(u64::MAX - f.last_at);
        assert(key@ =~= hits_key(f@));
        keys.push(key);
        assert(key_views(keys@) =~= had.push(wanted[i as int]));
        assert(wanted.take(i + 1) =~= wanted.take(i as int).push(wanted[i as int]));
        i += 1;
    }
    assert(wanted.take(i as int) =~= wanted);
    order_of(&keys)
}

/// The page of favourites.
pub fn favorites_view(user: &UserState) -> (r: Page)
    ensures
        r@ == favorites_page(user@),
{
    let mut rows = no_rows();
    assert(user@.favorites.len() == user.favorites@.len());
    if user.favorites.len() == 0 {
        push_one(&mut rows, menu("🔍 搜线路", "search"));
        push_home(&mut rows);
        return Page {
            text: copy(
                "⭐ <b>我的收藏</b>\n\n还没有收藏。查看任意线路的实时到站后，点「⭐ 收藏这一趟」即可保存线路 + 上车站的组合。",
            ),
            board: Board::Inline(rows),
        };
    }
    let order = hits_order(&user.favorites);
    let ghost list = by_hits(user@.favorites);
    let ghost wanted = list.map_values(|f: FavoriteModel| favorite_row(f));
    let mut body = String::new();
    let mut i: usize = 0;
    assert(rows_view(rows@) =~= wanted.take(0));
    assert(list.take(0) =~= Seq::<FavoriteModel>::empty());
    while i < order.len()
        invariant
            i <= order@.len(),
            order@.len() == user.favorites@.len(),
            forall|j: int| 0 <= j < order@.len() ==> (#[trigger] order@[j]) < user.favorites@.len(),
            list == arranged(user@.favorites, order@),
            list.len() == order@.len(),
            wanted == list.map_values(|f: FavoriteModel| favorite_row(f)),
            body@ == favorite_lines(list.take(i as int)),
            rows_view(rows@) == wanted.take(i as int),
        decreases order.len() - i,
    {
        assert(order@[i as int] < user.favorites@.len());
        let f = &user.favorites[order[i]];
        assert(list[i as int] == f@);
        assert(list.take(i + 1).drop_last() =~= list.take(i as int));
        let mut line = copy("🚌 <b>");
        line.append(escape(f.line_name.as_str()).as_str());
        line.append("</b> @ ");
        line.append(escape(f.station_name.as_str()).as_str());
        line.append("\n   ");
        line.append(escape(f.city_label.as_str()).as_str());
        line.append(" · 查过 ");
        line.append(decimal(f.hits as u64).as_str());
        line.append(" 次\n");
        body.append(line.as_str());
        let mut label = copy("🚌 ");
        label.append(shorten(f.label().as_str(), 24).as_str());
        push_two(
            &mut rows,
            act(
                label.as_str(),
                Action::Live { service: f.service.clone(), direction: f.direction.clone(), order: f.order },
            ),
            act(
                "🗑",
                Action::FavRemove { service: f.service.clone(), direction: f.direction.clone(), order: f.order },
            ),
        );
        assert(wanted[i as int] == favorite_row(f@));
        assert(wanted.take(i + 1) =~= wanted.take(i as int).push(wanted[i as int]));
        i += 1;
    }
    assert(wanted.take(i as int) =~= wanted);
    assert(list.take(i as int) =~= list);
    push_home(&mut rows);
    let mut t = copy("⭐ <b>我的收藏</b>（");
    t.append(decimal(user.favorites.len() as u64).as_str());
    t.append(" 条）\n\n");
    t.append(body.as_str());
    Page { text: t, board: Board::Inline(rows) }
}

/// The page of habits.
pub open spec fn habits_page(user: UserStateModel, hour: u32) -> PageModel {
    PageModel {
        text: habits_text_of(user, hour),
        board: BoardModel::Inline(
            habit_rows(most_queried(user.habits, 3)).push(one(menu_button("⭐ 我的收藏"@, "fav"@))).push(home_row()),
        ),
    }
}

/// The page of habits.
pub fn habits_view(user: &UserState, hour: u32) -> (r: Page)
    ensures
        r@ == habits_page(user@, hour),
{
    let mut rows = no_rows();
    let top = user.top_habits(3);
    push_habits(&mut rows, &top);
    assert(rows_view(rows@) =~= habit_rows(most_queried(user@.habits, 3)));
    push_one(&mut rows, menu("⭐ 我的收藏", "fav"));
    push_home(&mut rows);
    Page { text: habits_text(user, hour), board: Board::Inline(rows) }
}

// ─── stops near a position ───

/// The stops, nearest first.
pub open spec fn by_distance(stations: Seq<StationModel>) -> Seq<StationModel> {
    arranged(stations, stable_order(stations.map_values(|s: StationModel| seq![s.distance_m as u64])))
}

/// At most the first ten.
pub open spec fn first_ten(list: Seq<StationModel>) -> Seq<StationModel> {
    if list.len() > 10 {
        list.take(10)
    } else {
        list
    }
}

/// The line of a stop.
pub open spec fn station_line(s: StationModel) -> Seq<char> {
    "🚏 <b>"@ + escaped(s.name) + "</b> · 约 "@ + dec(s.distance_m as nat) + " 米\n"@
}

/// The lines of stops.
pub open spec fn station_lines_text(list: Seq<StationModel>) -> Seq<char>
    decreases list.len(),
{
    if list.len() == 0 {
        Seq::empty()
    } else {
        station_lines_text(list.drop_last()) + station_line(list.last())
    }
}

/// The row of a stop.
pub open spec fn station_row(s: StationModel, service: Seq<char>, lat: Double, lng: Double) -> Seq<ButtonModel> {
    one(
        act_button(
            "🚏 "@ + shortened(s.name, 16) + " · "@ + dec(s.distance_m as nat) + "m"@,
            ActionModel::Station { service: service, name: s.name, lat: lat, lng: lng },
        ),
    )
}

/// The page of stops near a position.
pub open spec fn nearby_page(stations: Seq<StationModel>, service: Seq<char>, lat: Double, lng: Double) -> PageModel {
    if stations.len() == 0 {
        error_page_of("附近没有查到站点。可能是坐标不在该城市范围内，或数据源没有覆盖。"@)
    } else {
        let list = first_ten(by_distance(stations));
        PageModel {
            text: "📍 <b>附近站点</b>（"@ + dec(list.len()) + " 个）\n\n"@ + station_lines_text(list),
            board: BoardModel::Inline(
                list.map_values(|s: StationModel| station_row(s, service, lat, lng)).push(home_row()),
            ),
        }
    }
}

fn distance_order(stations: &Vec<Station>) -> (r: Vec<usize>)
    ensures
        arranged(Station::models(stations@), r@) == by_distance(Station::models(stations@)),
        r@.len() == stations@.len(),
        forall|j: int| 0 <= j < r@.len() ==> (#[trigger] r@[j]) < stations@.len(),
{
    let ghost list = Station::models(stations@);
    let ghost wanted = list.map_values(|s: StationModel| seq![s.distance_m as u64]);
    let mut keys: Vec<Vec<u64>> = Vec::new();
    let mut i: usize = 0;
    assert(key_views(keys@) =~= wanted.take(0));
    while i < stations.len()
        invariant
            i <= stations@.len(),
            list == Station::models(stations@),
            wanted == list.map_values(|s: StationModel| seq![s.distance_m as u64]),
            key_views(keys@) == wanted.take(i as int),
        decreases stations.len() - i,
    {
        let s = &stations[i];
        assert(list[i as int] == s@);
        let ghost had = key_views(keys@);
        let mut key: Vec<u64> = Vec::new();
        key.push(s.distance_m as u64);
        assert(key@ =~= seq![s@.distance_m as u64]);
        keys.push(key);
        assert(key_views(keys@) =~= had.push(wanted[i as int]));
        assert(wanted.take(i + 1) =~= wanted.take(i as int).push(wanted[i as int]));
        i += 1;
    }
    assert(wanted.take(i as int) =~= wanted);
    order_of(&keys)
}

/// The page of stops near a position.
pub fn nearby_view(stations: &Vec<Station>, service: &str, lat: Double, lng: Double) -> (r: Page)
    ensures
        r@ == nearby_page(Station::models(stations@), service@, lat, lng),
{
    assert(Station::models(stations@).len() == stations@.len());
    if stations.len() == 0 {
        return error_page("附近没有查到站点。可能是坐标不在该城市范围内，或数据源没有覆盖。");
    }
    let order = distance_order(stations);
    let ghost all = arranged(Station::models(stations@), order@);
    let ghost list = first_ten(all);
    let ghost wanted = list.map_values(|s: StationModel| station_row(s, service@, lat, lng));
    let n: usize = if order.len() > 10 {
        10
    } else {
        order.len()
    };
    let mut rows = no_rows();
    let mut body = String::new();
    let mut i: usize = 0;
    assert(rows_view(rows@) =~= wanted.take(0));
    assert(list.take(0) =~= Seq::<StationModel>::empty());
    while i < n
        invariant
            i <= n,
            n == list.len(),
            n <= order@.len(),
            order@.len() == stations@.len(),
            forall|j: int| 0 <= j < order@.len() ==> (#[trigger] order@[j]) < stations@.len(),
            all == arranged(Station::models(stations@), order@),
            list == first_ten(all),
            wanted == list.map_values(|s: StationModel| station_row(s, service@, lat, lng)),
            body@ == station_lines_text(list.take(i as int)),
            rows_view(rows@) == wanted.take(i as int),
        decreases n - i,
    {
        assert(order@[i as int] < stations@.len());
        let s = &stations[order[i]];
        assert(list[i as int] == s@);
        assert(list.take(i + 1).drop_last() =~= list.take(i as int));
        let mut line = copy("🚏 <b>");
        line.append(escape(s.name.as_str()).as_str());
        line.append("</b> · 约 ");
        line.append(decimal(s.distance_m as u64).as_str());
        line.append(" 米\n");
        body.append(line.as_str());
        let mut label = copy("🚏 ");
        label.append(shorten(s.name.as_str(), 16).as_str());
        label.append(" · ");
        label.append(decimal(s.distance_m as u64).as_str());
        label.append("m");
        push_one(
            &mut rows,
            act(label.as_str(), Action::Station { service: copy(service), name: s.name.clone(), lat: lat, lng: lng }),
        );
        assert(wanted[i as int] == station_row(s@, service@, lat, lng));
        assert(wanted.take(i + 1) =~= wanted.take(i as int).push(wanted[i as int]));
        i += 1;
    }
    assert(wanted.take(i as int) =~= wanted);
    assert(list.take(i as int) =~= list);
    push_home(&mut rows);
    let mut t = copy("📍 <b>附近站点</b>（");
    t.append(decimal(n as u64).as_str());
    t.append(" 个）\n\n");
    t.append(body.as_str());
    Page { text: t, board: Board::Inline(rows) }
}

/// The lines of a stop, the soonest arrival first.
pub open spec fn by_arrival(lines: Seq<LineSummaryModel>) -> Seq<LineSummaryModel> {
    arranged(
        lines,
        stable_order(lines.map_values(|l: LineSummaryModel| seq![crate::models::proximity(l.arrival) as u64])),
    )
}

/// At most the first twenty.
pub open spec fn first_twenty(list: Seq<LineSummaryModel>) -> Seq<LineSummaryModel> {
    if list.len() > 20 {
        list.take(20)
    } else {
        list
    }
}

/// The lines of a line that calls at a stop.
pub open spec fn passing_line(l: LineSummaryModel) -> Seq<char> {
    "🚌 <b>"@ + escaped(l.name) + "</b> → "@ + escaped(if_empty(l.endpoints.terminus, "终点待更新"@)) + "\n   "@ + arrival_text_of(l.arrival) + " · "@ + run_state_text_of(l.run_state) + "\n"@
}

/// The lines of lines that call at a stop.
pub open spec fn passing_lines(list: Seq<LineSummaryModel>) -> Seq<char>
    decreases list.len(),
{
    if list.len() == 0 {
        Seq::empty()
    } else {
        passing_lines(list.drop_last()) + passing_line(list.last())
    }
}

/// The button of a line that calls at a stop.
pub open spec fn passing_button(l: LineSummaryModel, service: Seq<char>) -> ButtonModel {
    act_button(
        shortened(l.name, 14),
        ActionModel::Live {
            service: service,
            direction: l.direction_id,
            order: if l.station_order > 1 {
                l.station_order
            } else {
                1
            },
        },
    )
}

/// The page of the lines that call at a stop.
pub open spec fn station_page(lines: Seq<LineSummaryModel>, service: Seq<char>, station: Seq<char>) -> PageModel {
    if lines.len() == 0 {
        error_page_of("「"@ + escaped(station) + "」没有查到经过的线路。"@)
    } else {
        let list = first_twenty(by_arrival(lines));
        PageModel {
            text: "🚏 <b>"@ + escaped(station) + "</b>\n经过 "@ + dec(lines.len()) + " 条线路（按最近到站排序）\n\n"@ + passing_lines(list),
            board: BoardModel::Inline(
                in_rows(list.map_values(|l: LineSummaryModel| passing_button(l, service)), 3).push(
                    one(act_button("📍 重新查附近"@, ActionModel::NearbyHere)),
                ).push(home_row()),
            ),
        }
    }
}

fn arrival_order(lines: &Vec<LineSummary>) -> (r: Vec<usize>)
    ensures
        arranged(LineSummary::models(lines@), r@) == by_arrival(LineSummary::models(lines@)),
        r@.len() == lines@.len(),
        forall|j: int| 0 <= j < r@.len() ==> (#[trigger] r@[j]) < lines@.len(),
{
    let ghost list = LineSummary::models(lines@);
    let ghost wanted = list.map_values(|l: LineSummaryModel| seq![crate::models::proximity(l.arrival) as u64]);
    let mut keys: Vec<Vec<u64>> = Vec::new();
    let mut i: usize = 0;
    assert(key_views(keys@) =~= wanted.take(0));
    while i < lines.len()
        invariant
            i <= lines@.len(),
            list == LineSummary::models(lines@),
            wanted == list.map_values(|l: LineSummaryModel| seq![crate::models::proximity(l.arrival) as u64]),
            key_views(keys@) == wanted.take(i as int),
        decreases lines.len() - i,
    {
        let l = &lines[i];
        assert(list[i as int] == l@);
        let ghost had = key_views(keys@);
        let mut key: Vec<u64> = Vec::new();
        key.push(l.arrival.proximity_score());
        assert(key@ =~= seq![crate::models::proximity(l@.arrival) as u64]);
        keys.push(key);
        assert(key_views(keys@) =~= had.push(wanted[i as int]));
        assert(wanted.take(i + 1) =~= wanted.take(i as int).push(wanted[i as int]));
        i += 1;
    }
    assert(wanted.take(i as int) =~= wanted);
    order_of(&keys)
}

/// The page of the lines that call at a stop.
pub fn station_view(lines: &Vec<LineSummary>, service: &str, station: &str) -> (r: Page)
    ensures
        r@ == station_page(LineSummary::models(lines@), service@, station@),
{
    assert(LineSummary::models(lines@).len() == lines@.len());
    if lines.len() == 0 {
        let mut t = copy("「");
        t.append(escape(station).as_str());
        t.append("」没有查到经过的线路。");
        return error_page(t.as_str());
    }
    let order = arrival_order(lines);
    let ghost all = arranged(LineSummary::models(lines@), order@);
    let ghost list = first_twenty(all);
    let ghost wanted = list.map_values(|l: LineSummaryModel| passing_button(l, service@));
    let n: usize = if order.len() > 20 {
        20
    } else {
        order.len()
    };
    let mut buttons: Vec<Button> = Vec::new();
    let mut body = String::new();
    let mut i: usize = 0;
    assert(Button::models(buttons@) =~= wanted.take(0));
    assert(list.take(0) =~= Seq::<LineSummaryModel>::empty());
    while i < n
        invariant
            i <= n,
            n == list.len(),
            n <= order@.len(),
            order@.len() == lines@.len(),
            forall|j: int| 0 <= j < order@.len() ==> (#[trigger] order@[j]) < lines@.len(),
            all == arranged(LineSummary::models(lines@), order@),
            list == first_twenty(all),
            wanted == list.map_values(|l: LineSummaryModel| passing_button(l, service@)),
            body@ == passing_lines(list.take(i as int)),
            Button::models(buttons@) == wanted.take(i as int),
        decreases n - i,
    {
        assert(order@[i as int] < lines@.len());
        let l = &lines[order[i]];
        assert(list[i as int] == l@);
        assert(list.take(i + 1).drop_last() =~= list.take(i as int));
        let mut line = copy("🚌 <b>");
        line.append(escape(l.name.as_str()).as_str());
        line.append("</b> → ");
        line.append(escape(filled(l.endpoints.terminus.as_str(), "终点待更新")).as_str());
        line.append("\n   ");
        line.append(arrival_text(&l.arrival).as_str());
        line.append(" · ");
        line.append(run_state_text(l.run_state));
        line.append("\n");
        body.append(line.as_str());
        let ghost had = Button::models(buttons@);
        let stop: u32 = if l.station_order > 1 {
            l.station_order
        } else {
            1
        };
        let button = act(
            shorten(l.name.as_str(), 14).as_str(),
            Action::Live { service: copy(service), direction: l.direction_id.clone(), order: stop },
        );
        buttons.push(button);
        assert(Button::models(buttons@) =~= had.push(wanted[i as int]));
        assert(wanted.take(i + 1) =~= wanted.take(i as int).push(wanted[i as int]));
        i += 1;
    }
    assert(wanted.take(i as int) =~= wanted);
    assert(list.take(i as int) =~= list);
    let mut rows = no_rows();
    push_buttons(&mut rows, &buttons, 3);
    assert(rows_view(rows@) =~= in_rows(wanted, 3));
    push_one(&mut rows, act("📍 重新查附近", Action::NearbyHere));
    push_home(&mut rows);
    let mut t = copy("🚏 <b>");
    t.append(escape(station).as_str());
    t.append("</b>\n经过 ");
    t.append(decimal(lines.len() as u64).as_str());
    t.append(" 条线路（按最近到站排序）\n\n");
    t.append(body.as_str());
    Page { text: t, board: Board::Inline(rows) }
}

/// The message with the way to the panel.
pub open spec fn panel_page(miniapp_url: Option<Seq<char>>) -> PageModel {
    match miniapp_url {
        Some(url) => PageModel {
            text: "🧭 <b>我的面板</b>\n在小程序里管理城市、收藏、提醒偏好，并直接开始车次监控。"@,
            board: BoardModel::Inline(
                Seq::empty().push(one(ButtonModel { label: "🧭 打开我的面板"@, target: TargetModel::Link(url) })),
            ),
        },
        None => PageModel {
            text: "管理员还没有配置 Mini App 地址（环境变量 WHEREBUS_BOT_MINIAPP_URL）。"@,
            board: BoardModel::Bare,
        },
    }
}

/// The message with the way to the panel.
pub fn panel_view(miniapp_url: &Option<String>) -> (r: Page)
    ensures
        r@ == panel_page(opt_view(*miniapp_url)),
{
    match miniapp_url {
        Some(url) => {
            let mut rows = no_rows();
            push_one(&mut rows, Button { label: copy("🧭 打开我的面板"), target: Target::Link(url.clone()) });
            Page {
                text: copy("🧭 <b>我的面板</b>\n在小程序里管理城市、收藏、提醒偏好，并直接开始车次监控。"),
                board: Board::Inline(rows),
            }
        },
        None => Page {
            text: copy("管理员还没有配置 Mini App 地址（环境变量 WHEREBUS_BOT_MINIAPP_URL）。"),
            board: Board::Bare,
        },
    }
}

/// The message with the button that takes the last position.
pub open spec fn last_place_page() -> PageModel {
    PageModel {
        text: "点下面的按钮发送当前位置，或使用上次的位置："@,
        board: BoardModel::Inline(Seq::empty().push(one(act_button("📍 用上次的位置"@, ActionModel::NearbyHere)))),
    }
}

/// The message with the button that takes the last position.
pub fn last_place_view() -> (r: Page)
    ensures
        r@ == last_place_page(),
{
    let mut rows = no_rows();
    push_one(&mut rows, act("📍 用上次的位置", Action::NearbyHere));
    Page { text: copy("点下面的按钮发送当前位置，或使用上次的位置："), board: Board::Inline(rows) }
}

// ─── what the pages offer ───

/// A page has a button.
pub open spec fn has_button(page: PageModel, button: ButtonModel) -> bool {
    match page.board {
        BoardModel::Inline(rows) => exists|i: int, j: int|
            0 <= i < rows.len() && 0 <= j < rows[i].len() && #[trigger] rows[i][j] == button,
        _ => false,
    }
}

/// A page has a button that does something.
pub open spec fn offers(page: PageModel, action: ActionModel) -> bool {
    exists|label: Seq<char>| has_button(page, #[trigger] act_button(label, action))
}

proof fn lemma_button_at(page: PageModel, i: int, j: int)
    requires
        page.board is Inline,
        0 <= i < page.board->0.len(),
        0 <= j < page.board->0[i].len(),
    ensures
        has_button(page, page.board->0[i][j]),
{
    assert(page.board->0[i][j] == page.board->0[i][j]);
}

proof fn lemma_in_rows(buttons: Seq<ButtonModel>, per: nat, k: int) -> (at: (int, int))
    requires
        per > 0,
        0 <= k < buttons.len(),
    ensures
        0 <= at.0 < in_rows(buttons, per).len(),
        0 <= at.1 < in_rows(buttons, per)[at.0].len(),
        in_rows(buttons, per)[at.0][at.1] == buttons[k],
    decreases buttons.len(),
{
    if buttons.len() <= per {
        (0, k)
    } else if k < per {
        (0, k)
    } else {
        let rest = buttons.skip(per as int);
        let at = lemma_in_rows(rest, per, k - per);
        assert(rest[k - per] == buttons[k]);
        assert(in_rows(buttons, per)[at.0 + 1] == in_rows(rest, per)[at.0]);
        (at.0 + 1, at.1)
    }
}

proof fn lemma_station_line(list: Seq<StationModel>, i: int)
    requires
        0 <= i < list.len(),
    ensures
        has(station_lines_text(list), station_line(list[i])),
    decreases list.len(),
{
    broadcast use group_has;

    if i < list.len() - 1 {
        lemma_station_line(list.drop_last(), i);
        assert(list.drop_last()[i] == list[i]);
    }
    assert(has(station_lines_text(list.drop_last()) + station_line(list.last()), station_line(list[i])));
}

proof fn lemma_station_told(s: StationModel)
    ensures
        has(station_line(s), escaped(s.name) + "</b> · 约 "@ + dec(s.distance_m as nat) + " 米"@),
{
    let told = escaped(s.name) + "</b> · 约 "@ + dec(s.distance_m as nat) + " 米"@;
    reveal_strlit(" 米\n");
    reveal_strlit(" 米");
    assert(station_line(s) =~= "🚏 <b>"@ + told + seq!['\n']);
    lemma_has_middle("🚏 <b>"@, told, seq!['\n']);
}

proof fn lemma_station_label(s: StationModel, service: Seq<char>, lat: Double, lng: Double)
    ensures
        has(station_row(s, service, lat, lng)[0].label, dec(s.distance_m as nat) + "m"@),
{
    let front = "🚏 "@ + shortened(s.name, 16) + " · "@;
    let tail = dec(s.distance_m as nat) + "m"@;
    assert(station_row(s, service, lat, lng)[0].label =~= front + tail);
    lemma_has_itself(tail);
    lemma_has_behind(front, tail, tail);
}

/// The page of stops near a position lists stops of the source, the nearest first: none stands behind one that
/// is farther away, at most ten are listed, and every stop that is left out is at least as far away as every one
/// that is in. Each of them has its line with its distance, and in the same order a button that leads to it.
pub proof fn law_nearby_stops_go_by_distance(
    stations: Seq<StationModel>,
    service: Seq<char>,
    lat: Double,
    lng: Double,
) -> (list: Seq<StationModel>)
    requires
        0 < stations.len() <= usize::MAX,
    ensures
        list.len() == if stations.len() > 10 {
            10
        } else {
            stations.len()
        },
        forall|i: int| 0 <= i < list.len() ==> stations.contains(#[trigger] list[i]),
        forall|i: int, j: int| 0 <= i < j < list.len() ==> (#[trigger] list[i]).distance_m <= (#[trigger] list[j]).distance_m,
        forall|k: int, i: int|
            0 <= k < stations.len() && !list.contains(#[trigger] stations[k]) && 0 <= i < list.len() ==> (#[trigger] list[i]).distance_m
                <= stations[k].distance_m,
        ({
            let page = nearby_page(stations, service, lat, lng);
            &&& page.board is Inline && page.board->0.len() == list.len() + 1
            &&& forall|i: int|
                0 <= i < list.len() ==> (#[trigger] page.board->0[i]).len() == 1 && page.board->0[i][0].target == TargetModel::Act(
                    ActionModel::Station { service: service, name: list[i].name, lat: lat, lng: lng },
                ) && has(page.board->0[i][0].label, dec(list[i].distance_m as nat) + "m"@)
            &&& forall|i: int|
                0 <= i < list.len() ==> has(
                    page.text,
                    escaped((#[trigger] list[i]).name) + "</b> · 约 "@ + dec(list[i].distance_m as nat) + " 米"@,
                )
        }),
{
    let keys = stations.map_values(|s: StationModel| seq![s.distance_m as u64]);
    let order = stable_order(keys);
    let all = by_distance(stations);
    let list = first_ten(all);
    let page = nearby_page(stations, service, lat, lng);
    lemma_arranged(stations, keys);
    assert forall|i: int, j: int| 0 <= i < j < all.len() implies (#[trigger] all[i]).distance_m <= (
    #[trigger] all[j]).distance_m by {
        let (a, b) = (order[i] as int, order[j] as int);
        assert(all[i] == stations[a] && all[j] == stations[b]);
        assert(keys[a] == seq![stations[a].distance_m as u64] && keys[b] == seq![stations[b].distance_m as u64]);
        lemma_lex_one(keys[b], keys[a]);
    }
    assert forall|i: int| 0 <= i < list.len() implies #[trigger] list[i] == all[i] && stations.contains(list[i]) by {
        assert(all[i] == stations[order[i] as int]);
    }
    assert forall|k: int, i: int| 0 <= k < stations.len() && !list.contains(#[trigger] stations[k]) && 0 <= i < list.len() implies (
    #[trigger] list[i]).distance_m <= stations[k].distance_m by {
        assert(order.contains(k as usize));
        let at = choose|at: int| 0 <= at < order.len() && order[at] == k as usize;
        assert(all[at] == stations[k]);
        if at < list.len() {
            assert(list[at] == stations[k]);
        }
        assert(list[i] == all[i]);
        assert(all[i].distance_m <= all[at].distance_m);
    }
    assert forall|i: int| 0 <= i < list.len() implies (#[trigger] page.board->0[i]).len() == 1 && page.board->0[i][0].target
        == TargetModel::Act(ActionModel::Station { service: service, name: list[i].name, lat: lat, lng: lng }) && has(
        page.board->0[i][0].label,
        dec(list[i].distance_m as nat) + "m"@,
    ) by {
        assert(page.board->0[i] == station_row(list[i], service, lat, lng));
        lemma_station_label(list[i], service, lat, lng);
    }
    assert forall|i: int| 0 <= i < list.len() implies has(
        page.text,
        escaped((#[trigger] list[i]).name) + "</b> · 约 "@ + dec(list[i].distance_m as nat) + " 米"@,
    ) by {
        let told = escaped(list[i].name) + "</b> · 约 "@ + dec(list[i].distance_m as nat) + " 米"@;
        lemma_station_line(list, i);
        lemma_station_told(list[i]);
        lemma_has_behind("📍 <b>附近站点</b>（"@ + dec(list.len()) + " 个）\n\n"@, station_lines_text(list), station_line(list[i]));
        lemma_has_through(page.text, station_line(list[i]), told);
    }
    list
}

proof fn lemma_passing_line(list: Seq<LineSummaryModel>, i: int)
    requires
        0 <= i < list.len(),
    ensures
        has(passing_lines(list), passing_line(list[i])),
    decreases list.len(),
{
    broadcast use group_has;

    if i < list.len() - 1 {
        lemma_passing_line(list.drop_last(), i);
        assert(list.drop_last()[i] == list[i]);
    }
    assert(has(passing_lines(list.drop_last()) + passing_line(list.last()), passing_line(list[i])));
}

proof fn lemma_passing_parts(
    a0: Seq<char>,
    name: Seq<char>,
    a1: Seq<char>,
    end: Seq<char>,
    a2: Seq<char>,
    arrival: Seq<char>,
    a3: Seq<char>,
    state: Seq<char>,
    a4: Seq<char>,
)
    ensures
        has(a0 + name + a1 + end + a2 + arrival + a3 + state + a4, name),
        has(a0 + name + a1 + end + a2 + arrival + a3 + state + a4, arrival + a3 + state),
{
    let text = a0 + name + a1 + end + a2 + arrival + a3 + state + a4;
    let i = a0.len() as int;
    assert(text.subrange(i, i + name.len()) =~= name);
    assert(occurs_at(text, name, i));
    let j = (a0 + name + a1 + end + a2).len() as int;
    assert(text.subrange(j, j + (arrival + a3 + state).len()) =~= arrival + a3 + state);
    assert(occurs_at(text, arrival + a3 + state, j));
}

proof fn lemma_stop_text(a0: Seq<char>, station: Seq<char>, a1: Seq<char>, count: Seq<char>, a2: Seq<char>, lines: Seq<char>)
    ensures
        has(a0 + station + a1 + count + a2 + lines, station),
        has(a0 + station + a1 + count + a2 + lines, lines),
{
    broadcast use group_has;

}

/// An arrival is sooner than another: a vehicle that arrives before all others, then fewer stops, then those of
/// which nothing is known, and last those that do not run.
pub open spec fn arrives_sooner(a: ArrivalEstimate, b: ArrivalEstimate) -> bool {
    match (a, b) {
        (ArrivalEstimate::Arriving, ArrivalEstimate::Arriving) => false,
        (ArrivalEstimate::Arriving, _) => true,
        (
            ArrivalEstimate::Approaching { stations_away: m, .. },
            ArrivalEstimate::Approaching { stations_away: n, .. },
        ) => m < n,
        (ArrivalEstimate::Approaching { .. }, ArrivalEstimate::Unknown) => true,
        (ArrivalEstimate::Approaching { .. }, ArrivalEstimate::NoService) => true,
        (ArrivalEstimate::Unknown, ArrivalEstimate::NoService) => true,
        _ => false,
    }
}

/// The page of a stop lists the lines that call there, the soonest arrival first, at most twenty, and leaves out
/// none that comes sooner than one that is in. Each has its name, its arrival and whether it runs, and a button
/// for that line at that stop.
pub proof fn law_lines_at_a_stop_go_by_arrival(
    lines: Seq<LineSummaryModel>,
    service: Seq<char>,
    station: Seq<char>,
) -> (list: Seq<LineSummaryModel>)
    requires
        0 < lines.len() <= usize::MAX,
    ensures
        list.len() == if lines.len() > 20 {
            20
        } else {
            lines.len()
        },
        forall|i: int| 0 <= i < list.len() ==> lines.contains(#[trigger] list[i]),
        forall|i: int, j: int|
            0 <= i < j < list.len() ==> !arrives_sooner((#[trigger] list[j]).arrival, (#[trigger] list[i]).arrival),
        forall|k: int, i: int|
            0 <= k < lines.len() && !list.contains(#[trigger] lines[k]) && 0 <= i < list.len() ==> !arrives_sooner(
                lines[k].arrival,
                (#[trigger] list[i]).arrival,
            ),
        ({
            let page = station_page(lines, service, station);
            &&& has(page.text, escaped(station))
            &&& forall|i: int|
                0 <= i < list.len() ==> has(page.text, escaped((#[trigger] list[i]).name)) && has(
                    page.text,
                    arrival_text_of(list[i].arrival) + " · "@ + run_state_text_of(list[i].run_state),
                )
            &&& forall|i: int|
                0 <= i < list.len() && (#[trigger] list[i]).station_order >= 1 ==> offers(
                    page,
                    ActionModel::Live { service: service, direction: list[i].direction_id, order: list[i].station_order },
                )
            &&& offers(page, ActionModel::NearbyHere)
        }),
{
    let keys = lines.map_values(|l: LineSummaryModel| seq![crate::models::proximity(l.arrival) as u64]);
    let order = stable_order(keys);
    let all = by_arrival(lines);
    let list = first_twenty(all);
    let page = station_page(lines, service, station);
    let rows = page.board->0;
    lemma_arranged(lines, keys);
    lemma_stop_text("🚏 <b>"@, escaped(station), "</b>\n经过 "@, dec(lines.len()), " 条线路（按最近到站排序）\n\n"@, passing_lines(list));
    assert forall|i: int, j: int| 0 <= i < j < all.len() implies !arrives_sooner(
        (#[trigger] all[j]).arrival,
        (#[trigger] all[i]).arrival,
    ) by {
        let (a, b) = (order[i] as int, order[j] as int);
        assert(all[i] == lines[a] && all[j] == lines[b]);
        assert(keys[a] == seq![crate::models::proximity(lines[a].arrival) as u64]);
        assert(keys[b] == seq![crate::models::proximity(lines[b].arrival) as u64]);
        lemma_lex_one(keys[b], keys[a]);
    }
    assert forall|i: int| 0 <= i < list.len() implies #[trigger] list[i] == all[i] && lines.contains(list[i]) by {
        assert(all[i] == lines[order[i] as int]);
    }
    assert forall|k: int, i: int| 0 <= k < lines.len() && !list.contains(#[trigger] lines[k]) && 0 <= i < list.len() implies !arrives_sooner(
        lines[k].arrival,
        (#[trigger] list[i]).arrival,
    ) by {
        assert(order.contains(k as usize));
        let at = choose|at: int| 0 <= at < order.len() && order[at] == k as usize;
        assert(all[at] == lines[k]);
        if at < list.len() {
            assert(list[at] == lines[k]);
        }
        assert(list[i] == all[i]);
        assert(!arrives_sooner(all[at].arrival, all[i].arrival));
    }
    let buttons = list.map_values(|l: LineSummaryModel| passing_button(l, service));
    let own = in_rows(buttons, 3);
    assert(rows == own.push(one(act_button("📍 重新查附近"@, ActionModel::NearbyHere))).push(home_row()));
    assert(rows[own.len() as int] == one(act_button("📍 重新查附近"@, ActionModel::NearbyHere)));
    lemma_button_at(page, own.len() as int, 0);
    assert(has_button(page, act_button("📍 重新查附近"@, ActionModel::NearbyHere)));
    assert forall|i: int| 0 <= i < list.len() && (#[trigger] list[i]).station_order >= 1 implies offers(
        page,
        ActionModel::Live { service: service, direction: list[i].direction_id, order: list[i].station_order },
    ) by {
        let at = lemma_in_rows(buttons, 3, i);
        assert(rows[at.0] == own[at.0]);
        lemma_button_at(page, at.0, at.1);
        assert(buttons[i] == passing_button(list[i], service));
        assert(has_button(
            page,
            act_button(
                shortened(list[i].name, 14),
                ActionModel::Live { service: service, direction: list[i].direction_id, order: list[i].station_order },
            ),
        ));
    }
    assert forall|i: int| 0 <= i < list.len() implies has(page.text, escaped((#[trigger] list[i]).name)) && has(
        page.text,
        arrival_text_of(list[i].arrival) + " · "@ + run_state_text_of(list[i].run_state),
    ) by {
        lemma_passing_line(list, i);
        let told = arrival_text_of(list[i].arrival) + " · "@ + run_state_text_of(list[i].run_state);
        lemma_passing_parts(
            "🚌 <b>"@,
            escaped(list[i].name),
            "</b> → "@,
            escaped(if_empty(list[i].endpoints.terminus, "终点待更新"@)),
            "\n   "@,
            arrival_text_of(list[i].arrival),
            " · "@,
            run_state_text_of(list[i].run_state),
            "\n"@,
        );
        lemma_has_through(page.text, passing_lines(list), passing_line(list[i]));
        lemma_has_through(page.text, passing_line(list[i]), told);
        lemma_has_through(page.text, passing_line(list[i]), escaped(list[i].name));
    }
    list
}

proof fn lemma_favorite_line(list: Seq<FavoriteModel>, i: int)
    requires
        0 <= i < list.len(),
    ensures
        has(favorite_lines(list), favorite_line(list[i])),
    decreases list.len(),
{
    broadcast use group_has;

    if i < list.len() - 1 {
        lemma_favorite_line(list.drop_last(), i);
        assert(list.drop_last()[i] == list[i]);
    }
    assert(has(favorite_lines(list.drop_last()) + favorite_line(list.last()), favorite_line(list[i])));
}

proof fn lemma_favorite_parts(
    a0: Seq<char>,
    line: Seq<char>,
    a1: Seq<char>,
    stop: Seq<char>,
    a2: Seq<char>,
    city: Seq<char>,
    a3: Seq<char>,
    b3: Seq<char>,
    hits: Seq<char>,
    a4: Seq<char>,
    b4: Seq<char>,
)
    ensures
        has(a0 + line + a1 + stop + a2 + city + (a3 + b3) + hits + (a4 + b4), line + a1 + stop),
        has(a0 + line + a1 + stop + a2 + city + (a3 + b3) + hits + (a4 + b4), b3 + hits + a4),
{
    let text = a0 + line + a1 + stop + a2 + city + (a3 + b3) + hits + (a4 + b4);
    let i = a0.len() as int;
    assert(text.subrange(i, i + (line + a1 + stop).len()) =~= line + a1 + stop);
    assert(occurs_at(text, line + a1 + stop, i));
    let j = (a0 + line + a1 + stop + a2 + city + a3).len() as int;
    assert(text.subrange(j, j + (b3 + hits + a4).len()) =~= b3 + hits + a4);
    assert(occurs_at(text, b3 + hits + a4, j));
}

/// The page of favourites lists every favourite once, the ones looked up most first and the latest first among
/// those; each can be looked up and removed by the buttons of its row.
pub proof fn law_favorites_go_by_hits(user: UserStateModel) -> (list: Seq<FavoriteModel>)
    requires
        0 < user.favorites.len() <= usize::MAX,
    ensures
        list.len() == user.favorites.len(),
        forall|k: int| 0 <= k < user.favorites.len() ==> list.contains(#[trigger] user.favorites[k]),
        forall|i: int| 0 <= i < list.len() ==> user.favorites.contains(#[trigger] list[i]),
        forall|i: int, j: int|
            0 <= i < j < list.len() ==> (#[trigger] list[i]).hits >= (#[trigger] list[j]).hits && (list[i].hits == list[j].hits
                ==> list[i].last_at >= list[j].last_at),
        ({
            let page = favorites_page(user);
            &&& page.board is Inline && page.board->0.len() == list.len() + 1
            &&& forall|i: int|
                0 <= i < list.len() ==> (#[trigger] page.board->0[i]).len() == 2 && page.board->0[i][0].target == TargetModel::Act(
                    ActionModel::Live { service: list[i].service, direction: list[i].direction, order: list[i].order },
                ) && page.board->0[i][1] == act_button(
                    "🗑"@,
                    ActionModel::FavRemove { service: list[i].service, direction: list[i].direction, order: list[i].order },
                )
            &&& forall|i: int|
                0 <= i < list.len() ==> has(
                    page.text,
                    escaped((#[trigger] list[i]).line_name) + "</b> @ "@ + escaped(list[i].station_name),
                ) && has(page.text, "查过 "@ + dec(list[i].hits as nat) + " 次"@)
        }),
{
    let keys = user.favorites.map_values(|f: FavoriteModel| hits_key(f));
    let order = stable_order(keys);
    let list = by_hits(user.favorites);
    let page = favorites_page(user);
    lemma_arranged(user.favorites, keys);
    assert forall|i: int, j: int| 0 <= i < j < list.len() implies (#[trigger] list[i]).hits >= (#[trigger] list[j]).hits && (
    list[i].hits == list[j].hits ==> list[i].last_at >= list[j].last_at) by {
        let (a, b) = (order[i] as int, order[j] as int);
        assert(list[i] == user.favorites[a] && list[j] == user.favorites[b]);
        assert(keys[a] == hits_key(user.favorites[a]) && keys[b] == hits_key(user.favorites[b]));
        lemma_lex_two(keys[b], keys[a]);
    }
    assert forall|i: int| 0 <= i < list.len() implies user.favorites.contains(#[trigger] list[i]) by {
        assert(list[i] == user.favorites[order[i] as int]);
    }
    assert forall|k: int| 0 <= k < user.favorites.len() implies list.contains(#[trigger] user.favorites[k]) by {
        assert(order.contains(k as usize));
        let at = choose|at: int| 0 <= at < order.len() && order[at] == k as usize;
        assert(list[at] == user.favorites[k]);
    }
    assert forall|i: int| 0 <= i < list.len() implies #[trigger] page.board->0[i] == favorite_row(list[i]) by {}
    assert forall|i: int| 0 <= i < list.len() implies has(
        page.text,
        escaped((#[trigger] list[i]).line_name) + "</b> @ "@ + escaped(list[i].station_name),
    ) && has(page.text, "查过 "@ + dec(list[i].hits as nat) + " 次"@) by {
        let f = list[i];
        let named = escaped(f.line_name) + "</b> @ "@ + escaped(f.station_name);
        let told = "查过 "@ + dec(f.hits as nat) + " 次"@;
        lemma_favorite_line(list, i);
        reveal_strlit(" · 查过 ");
        reveal_strlit(" · ");
        reveal_strlit("查过 ");
        reveal_strlit(" 次\n");
        reveal_strlit(" 次");
        reveal_strlit("\n");
        assert(" · 查过 "@ =~= " · "@ + "查过 "@);
        assert(" 次\n"@ =~= " 次"@ + "\n"@);
        lemma_favorite_parts(
            "🚌 <b>"@,
            escaped(f.line_name),
            "</b> @ "@,
            escaped(f.station_name),
            "\n   "@,
            escaped(f.city_label),
            " · "@,
            "查过 "@,
            dec(f.hits as nat),
            " 次"@,
            "\n"@,
        );
        lemma_has_behind("⭐ <b>我的收藏</b>（"@ + dec(user.favorites.len()) + " 条）\n\n"@, favorite_lines(list), favorite_line(f));
        lemma_has_through(page.text, favorite_line(f), told);
        lemma_has_through(page.text, favorite_line(f), named);
    }
    list
}

/// A line is found by a keyword exactly where its name holds it, whether letters are large or small, or one of
/// its ends holds it; those that are found keep their order.
pub proof fn law_lines_are_found_by_name_and_ends(lines: Seq<BusRouteModel>, keyword: Seq<char>, k: int)
    requires
        0 <= k < lines.len(),
    ensures
        matching_lines(lines, keyword).contains(lines[k]) <==> {
            ||| has(lowercased(lines[k].name), lowercased(keyword))
            ||| has(lines[k].endpoints.origin, keyword)
            ||| has(lines[k].endpoints.terminus, keyword)
        },
        forall|i: int|
            0 <= i < matching_lines(lines, keyword).len() ==> lines.contains(#[trigger] matching_lines(lines, keyword)[i]),
{
    let p = |r: BusRouteModel| route_matches(r, keyword);
    let found = lines.filter(p);
    lemma_filter_has(lines, p, lines[k]);
    assert(lines.contains(lines[k]));
    assert forall|i: int| 0 <= i < found.len() implies lines.contains(#[trigger] found[i]) by {
        assert(found.contains(found[i]));
        lemma_filter_has(lines, p, found[i]);
    }
}

/// A city is found by a keyword exactly where its name, its province or its source holds it; the simulation is
/// never found.
pub proof fn law_cities_are_found_by_name_province_and_source(services: Seq<ServiceEntryModel>, keyword: Seq<char>, k: int)
    requires
        0 <= k < services.len(),
    ensures
        matching_cities(services, keyword).contains(services[k]) <==> services[k].provider != "Debug"@ && (keyword.len() == 0 || has(
            services[k].city.name,
            keyword,
        ) || has(services[k].city.province, keyword) || has(services[k].provider, keyword)),
{
    let p = |e: ServiceEntryModel| city_matches(e, keyword);
    lemma_filter_has(services, p, services[k]);
    assert(services.contains(services[k]));
}

proof fn lemma_route_text(list: Seq<BusRouteModel>, i: int)
    requires
        0 <= i < list.len(),
    ensures
        has(routes_text(list), route_text(list[i])),
    decreases list.len(),
{
    broadcast use group_has;

    if i < list.len() - 1 {
        lemma_route_text(list.drop_last(), i);
        assert(list.drop_last()[i] == list[i]);
    }
    assert(has(routes_text(list.drop_last()) + route_text(list.last()), route_text(list[i])));
}

proof fn lemma_route_parts(
    a: Seq<char>,
    name: Seq<char>,
    b: Seq<char>,
    origin: Seq<char>,
    c: Seq<char>,
    terminus: Seq<char>,
    d: Seq<char>,
)
    ensures
        has(a + name + b + origin + c + terminus + d, name),
        has(a + name + b + origin + c + terminus + d, origin + c + terminus),
{
    let text = a + name + b + origin + c + terminus + d;
    let i = a.len() as int;
    assert(text.subrange(i, i + name.len()) =~= name);
    assert(occurs_at(text, name, i));
    let j = (a + name + b).len() as int;
    assert(text.subrange(j, j + (origin + c + terminus).len()) =~= origin + c + terminus);
    assert(occurs_at(text, origin + c + terminus, j));
}

/// Every line that was found stands on one of the pages of the search, nine on a page: with its name, and with a
/// button that opens that line.
pub proof fn law_found_lines_can_be_opened(matches: Seq<BusRouteModel>, keyword: Seq<char>, service: Seq<char>, k: int)
    requires
        0 <= k < matches.len(),
    ensures
        ({
            let page = search_page(matches, keyword, (k / 9) as nat, service);
            &&& has(page.text, escaped(matches[k].name))
            &&& matches[k].endpoints.origin.len() > 0 && matches[k].endpoints.terminus.len() > 0 ==> has(
                page.text,
                escaped(matches[k].endpoints.origin) + " → "@ + escaped(matches[k].endpoints.terminus),
            )
            &&& has_button(
                page,
                act_button(
                    if matches[k].endpoints.terminus.len() == 0 {
                        shortened(matches[k].name, 14)
                    } else {
                        shortened(matches[k].name, 8) + "→"@ + shortened(matches[k].endpoints.terminus, 6)
                    },
                    ActionModel::Line { service: service, direction: matches[k].direction_id, page: 0 },
                ),
            )
            &&& offers(page, ActionModel::Line { service: service, direction: matches[k].direction_id, page: 0 })
        }),
{
    let n = (k / 9) as nat;
    law_pages_cover_the_list(matches, 9, k);
    let items = page_items(matches, n, 9);
    let i = k - n * 9;
    assert(items[i] == matches[k]);
    let page = search_page(matches, keyword, n, service);
    let buttons = items.map_values(|r: BusRouteModel| route_button(r, service));
    let own = in_rows(buttons, 3);
    let at = lemma_in_rows(buttons, 3, i);
    assert(page.board->0[at.0] == own[at.0]);
    lemma_button_at(page, at.0, at.1);
    assert(buttons[i] == route_button(matches[k], service));
    assert(has_button(
        page,
        act_button(route_label(matches[k]), ActionModel::Line { service: service, direction: matches[k].direction_id, page: 0 }),
    ));
    lemma_route_text(items, i);
    let r = matches[k];
    lemma_route_parts(
        "🚌 <b>"@,
        escaped(r.name),
        "</b>\n   "@,
        escaped(if_empty(r.endpoints.origin, "起点待更新"@)),
        " → "@,
        escaped(if_empty(r.endpoints.terminus, "终点待更新"@)),
        "\n"@,
    );
    lemma_has_behind(
        "🔍 「"@ + escaped(keyword) + "」找到 "@ + dec(matches.len()) + " 条线路（第 "@ + dec(n + 1) + "/"@ + dec(
            page_count(matches.len(), 9),
        ) + " 页）\n\n"@,
        routes_text(items),
        route_text(r),
    );
    lemma_has_through(page.text, route_text(r), escaped(r.name));
    if r.endpoints.origin.len() > 0 && r.endpoints.terminus.len() > 0 {
        lemma_has_through(page.text, route_text(r), escaped(r.endpoints.origin) + " → "@ + escaped(r.endpoints.terminus));
    }
}

/// Every city that was found stands on one of the pages, eight on a page, with a button that chooses it.
pub proof fn law_found_cities_can_be_chosen(matches: Seq<ServiceEntryModel>, keyword: Seq<char>, k: int)
    requires
        0 <= k < matches.len(),
    ensures
        offers(
            cities_page(matches, keyword, (k / 8) as nat),
            ActionModel::PickService { service: matches[k].id, label: matches[k].city.name + " · "@ + matches[k].provider },
        ),
{
    let n = (k / 8) as nat;
    law_pages_cover_the_list(matches, 8, k);
    let items = page_items(matches, n, 8);
    let i = k - n * 8;
    assert(items[i] == matches[k]);
    let page = cities_page(matches, keyword, n);
    assert(page.board->0[i] == city_row(matches[k]));
    lemma_button_at(page, i, 0);
    assert(has_button(
        page,
        act_button(
            matches[k].city.province + " · "@ + service_label(matches[k]),
            ActionModel::PickService { service: matches[k].id, label: service_label(matches[k]) },
        ),
    ));
}

/// Every stop of a line stands on one of its pages, ten on a page, with a button for the live data at that stop;
/// the other direction can be opened from each page where there is one.
pub proof fn law_stops_of_a_line_can_be_chosen(
    d: LineDetailModel,
    city_label: Option<Seq<char>>,
    service: Seq<char>,
    k: int,
)
    requires
        0 <= k < d.topology.stations.len(),
    ensures
        ({
            let page = line_page(d, city_label, service, (k / 10) as nat);
            &&& offers(
                page,
                ActionModel::Live { service: service, direction: d.direction_id, order: d.topology.stations[k].order },
            )
            &&& d.reverse_id is Some ==> has_button(
                page,
                act_button("🔄 换方向"@, ActionModel::Line { service: service, direction: d.reverse_id->0, page: 0 }),
            )
        }),
{
    let stops = d.topology.stations;
    let n = (k / 10) as nat;
    law_pages_cover_the_list(stops, 10, k);
    let items = page_items(stops, n, 10);
    let i = k - n * 10;
    assert(items[i] == stops[k]);
    let page = line_page(d, city_label, service, n);
    let buttons = items.map_values(|s: LineStopModel| stop_button(s, service, d.direction_id));
    let own = in_rows(buttons, 2);
    let pager = pager_rows(
        ActionModel::Line { service: service, direction: d.direction_id, page: 0 },
        n,
        page_count(stops.len(), 10),
    );
    let at = lemma_in_rows(buttons, 2, i);
    assert(page.board->0[at.0] == own[at.0]);
    lemma_button_at(page, at.0, at.1);
    assert(buttons[i] == stop_button(stops[k], service, d.direction_id));
    let button = stop_button(stops[k], service, d.direction_id);
    assert(has_button(
        page,
        act_button(
            button.label,
            ActionModel::Live { service: service, direction: d.direction_id, order: stops[k].order },
        ),
    ));
    if d.reverse_id is Some {
        let j = (own.len() + pager.len()) as int;
        assert(page.board->0[j] == reverse_rows(d.reverse_id, service)[0]);
        lemma_button_at(page, j, 0);
    }
}

/// The pages of a list lead to each other: a page has a button for the one before and for the one behind it,
/// wherever there is one, and none that leads out of the list.
pub proof fn law_pages_lead_to_each_other(action: ActionModel, page: nat, pages: nat)
    requires
        page < pages <= usize::MAX,
    ensures
        ({
            let row = pager_row(action, page, pages);
            &&& row.len() == (if page > 0 {
                1int
            } else {
                0
            }) + (if page + 1 < pages {
                1int
            } else {
                0
            })
            &&& page > 0 ==> row[0] == act_button("⬅️ 上一页"@, at_page(action, (page - 1) as usize))
            &&& page + 1 < pages ==> row.last() == act_button("➡️ 下一页"@, at_page(action, (page + 1) as usize))
        }),
        forall|k: Seq<char>, n: usize, m: usize|
            #![trigger at_page(ActionModel::SearchPage { keyword: k, page: n }, m)]
            at_page(ActionModel::SearchPage { keyword: k, page: n }, m) == (ActionModel::SearchPage { keyword: k, page: m }),
        forall|k: Seq<char>, n: usize, m: usize|
            #![trigger at_page(ActionModel::CityPage { keyword: k, page: n }, m)]
            at_page(ActionModel::CityPage { keyword: k, page: n }, m) == (ActionModel::CityPage { keyword: k, page: m }),
        forall|s: Seq<char>, d: Seq<char>, n: usize, m: usize|
            #![trigger at_page(ActionModel::Line { service: s, direction: d, page: n }, m)]
            at_page(ActionModel::Line { service: s, direction: d, page: n }, m) == (ActionModel::Line {
                service: s,
                direction: d,
                page: m,
            }),
{
}

/// The live page of a line at a stop can be refreshed, kept or dropped as a favourite, and watched, all for that
/// line at that stop; another stop is chosen from the page of the line that the stop stands on.
pub proof fn law_live_page_is_for_its_stop(
    d: LineDetailModel,
    realtime: RealTimeDataModel,
    user: UserStateModel,
    service: Seq<char>,
    order: u32,
    clock: Seq<char>,
)
    ensures
        ({
            let page = live_page(d, realtime, user, service, order, clock);
            let kept = exists|k: int|
                0 <= k < user.favorites.len() && (#[trigger] user.favorites[k]).service == service && user.favorites[k].direction
                    == d.direction_id && user.favorites[k].order == order;
            &&& has_button(
                page,
                act_button("🔄 刷新"@, ActionModel::Live { service: service, direction: d.direction_id, order: order }),
            )
            &&& kept ==> has_button(
                page,
                act_button(
                    "💔 取消收藏"@,
                    ActionModel::FavToggle { service: service, direction: d.direction_id, order: order },
                ),
            )
            &&& !kept ==> has_button(
                page,
                act_button(
                    "⭐ 收藏这一趟"@,
                    ActionModel::FavToggle { service: service, direction: d.direction_id, order: order },
                ),
            )
            &&& has_button(
                page,
                act_button(
                    "🔔 盯这趟车（到站前提醒我）"@,
                    ActionModel::WatchSetup { service: service, direction: d.direction_id, order: order },
                ),
            )
            &&& order > 0 ==> has_button(
                page,
                act_button(
                    "🚏 换上车站"@,
                    ActionModel::Line { service: service, direction: d.direction_id, page: ((order - 1) / 10) as usize },
                ),
            )
            &&& has_button(page, menu_button("⭐ 我的收藏"@, "fav"@))
            &&& has_button(page, menu_button("🏠 主菜单"@, "home"@))
        }),
{
    let page = live_page(d, realtime, user, service, order, clock);
    let p = |f: FavoriteModel| is_trip(f, service, d.direction_id, order);
    lemma_first_where_is(user.favorites, p);
    let kept = exists|k: int|
        0 <= k < user.favorites.len() && (#[trigger] user.favorites[k]).service == service && user.favorites[k].direction
            == d.direction_id && user.favorites[k].order == order;
    let at = trip_index(user.favorites, service, d.direction_id, order);
    if kept {
        let k = choose|k: int|
            0 <= k < user.favorites.len() && (#[trigger] user.favorites[k]).service == service && user.favorites[k].direction
                == d.direction_id && user.favorites[k].order == order;
        assert(p(user.favorites[k]));
    } else if at < user.favorites.len() {
        assert(p(user.favorites[at]));
    }
    lemma_button_at(page, 0, 0);
    lemma_button_at(page, 0, 1);
    lemma_button_at(page, 1, 0);
    lemma_button_at(page, 2, 0);
    lemma_button_at(page, 2, 1);
    lemma_button_at(page, 3, 0);
}

proof fn lemma_choice(
    buses: Seq<BusPositionModel>,
    stops: Seq<LineStopModel>,
    service: Seq<char>,
    key: Seq<char>,
    order: u32,
    n: nat,
    i: int,
) -> (at: int)
    requires
        0 <= i < n,
        can_wait_for(
            buses[by_nearness(buses, stops, order)[i] as int],
            by_nearness(buses, stops, order)[i] as int,
            stops,
            order,
        ),
    ensures
        0 <= at < choice_rows(buses, stops, service, key, order, n).len(),
        choice_rows(buses, stops, service, key, order, n)[at].len() == 1,
        choice_rows(buses, stops, service, key, order, n)[at][0].target == TargetModel::Act(
            watch_action(service, key, order, Some(buses[by_nearness(buses, stops, order)[i] as int].bus_id)),
        ),
    decreases n,
{
    if i == n - 1 {
        choice_rows(buses, stops, service, key, order, n).len() - 1
    } else {
        lemma_choice(buses, stops, service, key, order, (n - 1) as nat, i)
    }
}

proof fn lemma_choices_are_there(
    buses: Seq<BusPositionModel>,
    stops: Seq<LineStopModel>,
    service: Seq<char>,
    key: Seq<char>,
    order: u32,
    n: nat,
    at: int,
) -> (i: int)
    requires
        0 <= at < choice_rows(buses, stops, service, key, order, n).len(),
    ensures
        0 <= i < n,
        can_wait_for(
            buses[by_nearness(buses, stops, order)[i] as int],
            by_nearness(buses, stops, order)[i] as int,
            stops,
            order,
        ),
        choice_rows(buses, stops, service, key, order, n)[at].len() == 1,
        choice_rows(buses, stops, service, key, order, n)[at][0].target == TargetModel::Act(
            watch_action(service, key, order, Some(buses[by_nearness(buses, stops, order)[i] as int].bus_id)),
        ),
    decreases n,
{
    let k = by_nearness(buses, stops, order)[n - 1] as int;
    let before = choice_rows(buses, stops, service, key, order, (n - 1) as nat);
    if at < before.len() {
        lemma_choices_are_there(buses, stops, service, key, order, (n - 1) as nat, at)
    } else {
        assert(can_wait_for(buses[k], k, stops, order));
        n - 1
    }
}

/// Before a watch begins, the nearest vehicle can be chosen, whichever it is, and every vehicle with a number that
/// has not passed; none that has passed can be. The watch is for that line at that stop.
pub proof fn law_vehicles_to_wait_for_are_on_their_way(
    d: LineDetailModel,
    realtime: RealTimeDataModel,
    service: Seq<char>,
    order: u32,
    defaults: AlertSettings,
    k: int,
)
    requires
        0 <= k < realtime.buses.len() <= usize::MAX,
        !is_blank(realtime.buses[k].bus_id),
    ensures
        ({
            let page = watch_setup_page(d, realtime, service, order, defaults);
            let bus = realtime.buses[k];
            &&& has_button(
                page,
                act_button(
                    "⚡ 最近的一班（自动跟随）"@,
                    ActionModel::WatchStart { service: service, direction: d.direction_id, order: order, bus: None },
                ),
            )
            &&& !progress_of(bus.station_index, bus.is_arriving, d.topology.stations, order).1 ==> offers(
                page,
                ActionModel::WatchStart { service: service, direction: d.direction_id, order: order, bus: Some(bus.bus_id) },
            )
            &&& progress_of(bus.station_index, bus.is_arriving, d.topology.stations, order).1 && (forall|j: int|
                0 <= j < realtime.buses.len() && j != k ==> (#[trigger] realtime.buses[j]).bus_id != bus.bus_id) ==> !offers(
                page,
                ActionModel::WatchStart { service: service, direction: d.direction_id, order: order, bus: Some(bus.bus_id) },
            )
        }),
{
    let page = watch_setup_page(d, realtime, service, order, defaults);
    let rows = page.board->0;
    let buses = realtime.buses;
    let stops = d.topology.stations;
    let bus = buses[k];
    let n = buses.len();
    let choices = choice_rows(buses, stops, service, d.direction_id, order, n);
    let shown = by_nearness(buses, stops, order);
    let action = ActionModel::WatchStart { service: service, direction: d.direction_id, order: order, bus: Some(bus.bus_id) };
    law_vehicles_are_listed_by_stops_left(buses, stops, order);
    crate::sort::lemma_stable_order_is_one(crate::watch::nearness_keys(buses, stops, order));
    lemma_button_at(page, 0, 0);
    if !progress_of(bus.station_index, bus.is_arriving, stops, order).1 {
        assert(shown.contains(k as usize));
        let i = choose|i: int| 0 <= i < shown.len() && shown[i] == k as usize;
        let at = lemma_choice(buses, stops, service, d.direction_id, order, n, i);
        assert(rows[at + 1] == choices[at]);
        lemma_button_at(page, at + 1, 0);
        assert(has_button(page, act_button(choices[at][0].label, action)));
    } else if offers(page, action) && (forall|j: int|
        0 <= j < realtime.buses.len() && j != k ==> (#[trigger] realtime.buses[j]).bus_id != bus.bus_id) {
        let label = choose|label: Seq<char>| has_button(page, #[trigger] act_button(label, action));
        let (x, y) = choose|x: int, y: int|
            0 <= x < rows.len() && 0 <= y < rows[x].len() && #[trigger] rows[x][y] == act_button(label, action);
        if 0 < x <= choices.len() {
            assert(rows[x] == choices[x - 1]);
            let i = lemma_choices_are_there(buses, stops, service, d.direction_id, order, n, x - 1);
            let j = shown[i] as int;
            assert(buses[j].bus_id == bus.bus_id);
            assert(j == k);
        } else if x == 0 {
            assert(rows[0][0].target == TargetModel::Act(watch_action(service, d.direction_id, order, None)));
        } else if x == choices.len() + 1 {
            assert(rows[x] == one(menu_button("⚙️ 提醒设置"@, "settings"@)));
        } else {
            assert(rows[x] == home_row());
        }
    }
}

/// A watch that has ended says why, and can be begun again for the same vehicle at the same stop.
pub proof fn law_ended_watch_can_be_begun_again(w: WatchSpecModel, reason: Seq<char>)
    ensures
        ({
            let page = finished_page(w, reason);
            &&& has(page.text, escaped(reason)) && has(page.text, escaped(w.line_name)) && has(page.text, escaped(w.station_name))
            &&& has_button(
                page,
                act_button(
                    "🔔 再盯一次"@,
                    ActionModel::WatchStart { service: w.service, direction: w.direction, order: w.order, bus: w.target_bus },
                ),
            )
            &&& has_button(
                page,
                act_button(
                    "🚌 查看到站"@,
                    ActionModel::Live { service: w.service, direction: w.direction, order: w.order },
                ),
            )
        }),
{
    broadcast use group_has;

    let page = finished_page(w, reason);
    lemma_button_at(page, 0, 0);
    lemma_button_at(page, 1, 0);
}

/// The index of a setting in the list on the page of settings.
spec fn field_place(field: AlertField) -> int {
    match field {
        AlertField::Poll => 0,
        AlertField::Stations => 1,
        AlertField::Distance => 2,
        AlertField::Repeat => 3,
        AlertField::MaxMinutes => 4,
    }
}

proof fn lemma_middle_is_told(
    dot: Seq<char>,
    label: Seq<char>,
    colon: Seq<char>,
    value: Seq<char>,
    gap: Seq<char>,
    unit: Seq<char>,
    note: Seq<char>,
    end: Seq<char>,
)
    ensures
        has(dot + label + colon + value + gap + unit + note + end, label + colon + value + gap + unit),
{
    let told = label + colon + value + gap + unit;
    let line = dot + label + colon + value + gap + unit + note + end;
    assert(line.subrange(dot.len() as int, (dot.len() + told.len()) as int) =~= told);
    assert(occurs_at(line, told, dot.len() as int));
}

proof fn lemma_each_of_five(
    head: Seq<char>,
    a: Seq<char>,
    b: Seq<char>,
    c: Seq<char>,
    d: Seq<char>,
    e: Seq<char>,
    end: Seq<char>,
)
    ensures
        has(head + a + b + c + d + e + end, a),
        has(head + a + b + c + d + e + end, b),
        has(head + a + b + c + d + e + end, c),
        has(head + a + b + c + d + e + end, d),
        has(head + a + b + c + d + e + end, e),
{
    broadcast use group_has;

}

proof fn lemma_setting_is_told(alerts: AlertSettings, using_defaults: bool, field: AlertField)
    ensures
        has(
            alert_settings_text_of(alerts, using_defaults),
            field_label(field) + "："@ + dec(setting(alerts, field) as nat) + " "@ + field_unit(field),
        ),
{
    lemma_middle_is_told(
        "· "@,
        field_label(field),
        "："@,
        dec(setting(alerts, field) as nat),
        " "@,
        field_unit(field),
        field_note(field, setting(alerts, field)),
        "\n"@,
    );
    lemma_each_of_five(
        "⚙️ <b>提醒设置</b>"@ + (if using_defaults {
            "（当前跟随全局默认值）"@
        } else {
            ""@
        }) + "\n\n"@,
        setting_line(alerts, AlertField::Poll),
        setting_line(alerts, AlertField::Stations),
        setting_line(alerts, AlertField::Distance),
        setting_line(alerts, AlertField::Repeat),
        setting_line(alerts, AlertField::MaxMinutes),
        "\n用下面的 ➖ ➕ 调整，设置对之后的盯车立即生效。"@,
    );
    lemma_has_through(
        alert_settings_text_of(alerts, using_defaults),
        setting_line(alerts, field),
        field_label(field) + "："@ + dec(setting(alerts, field) as nat) + " "@ + field_unit(field),
    );
}

/// Each setting stands on the page of settings with its value, between a button that lowers it by a step and one
/// that raises it; all can be reset.
pub proof fn law_settings_can_be_changed(alerts: AlertSettings, using_defaults: bool, field: AlertField) -> (row: int)
    ensures
        ({
            let page = settings_page(alerts, using_defaults);
            &&& page.board is Inline && 0 <= row < page.board->0.len() && page.board->0[row].len() == 3
            &&& page.board->0[row][0] == act_button("➖"@, ActionModel::SettingsAdjust { field: field, steps: -1i64 })
            &&& page.board->0[row][2] == act_button("➕"@, ActionModel::SettingsAdjust { field: field, steps: 1 })
            &&& page.board->0[row][1].label == field_label(field) + " "@ + dec(setting(alerts, field) as nat) + field_unit(field)
            &&& has(page.text, field_label(field) + "："@ + dec(setting(alerts, field) as nat) + " "@ + field_unit(field))
            &&& has_button(page, act_button("↩️ 恢复默认"@, ActionModel::SettingsReset))
        }),
{
    let page = settings_page(alerts, using_defaults);
    let row = field_place(field);
    lemma_button_at(page, 5, 0);
    assert(page.board->0[row] == setting_row(alerts, field));
    lemma_setting_is_told(alerts, using_defaults, field);
    row
}

/// The main menu names the city, counts favourites and queries, offers what is looked up most around the hour
/// first, and leads to every part.
pub proof fn law_main_menu_leads_everywhere(user: UserStateModel, hour: u32, miniapp_url: Option<Seq<char>>, i: int)
    requires
        user.habits.len() <= usize::MAX,
    ensures
        ({
            let page = home_page(user, hour, miniapp_url);
            let list = suggested(user.habits, hour, 3);
            &&& user.city_label is Some ==> has(page.text, escaped(user.city_label->0))
            &&& user.city_label is None ==> has(page.text, escaped("未选择"@))
            &&& has(page.text, "收藏 "@ + dec(user.favorites.len()) + " 条"@)
            &&& has(page.text, "累计查询 "@ + dec(user.queries as nat) + " 次"@)
            &&& 0 <= i < list.len() ==> page.board->0[i].len() == 1 && page.board->0[i][0] == act_button(
                "🕘 "@ + list[i].label,
                ActionModel::Live { service: list[i].service, direction: list[i].direction, order: list[i].order },
            )
            &&& has_button(page, menu_button("🔍 搜线路"@, "search"@))
            &&& has_button(page, menu_button("📍 附近站点"@, "nearby"@))
            &&& has_button(page, menu_button("⭐ 我的收藏"@, "fav"@))
            &&& has_button(page, menu_button("🔔 盯车"@, "watch"@))
            &&& has_button(page, menu_button("📊 我的习惯"@, "habit"@))
            &&& has_button(page, menu_button("⚙️ 提醒设置"@, "settings"@))
            &&& has_button(page, menu_button("🏙 切换城市"@, "city"@))
            &&& has_button(page, menu_button("❓ 使用说明"@, "help"@))
            &&& miniapp_url is Some ==> has_button(
                page,
                (ButtonModel { label: "🧭 我的面板"@, target: TargetModel::Link(miniapp_url->0) }),
            )
        }),
{
    broadcast use group_has;

    let page = home_page(user, hour, miniapp_url);
    let list = suggested(user.habits, hour, 3);
    let n = list.len() as int;
    if 0 <= i < n {
        assert(page.board->0[i] == habit_row(list[i]));
    }
    lemma_button_at(page, n, 0);
    lemma_button_at(page, n, 1);
    lemma_button_at(page, n + 1, 0);
    lemma_button_at(page, n + 1, 1);
    lemma_button_at(page, n + 2, 0);
    lemma_button_at(page, n + 2, 1);
    lemma_button_at(page, n + 3, 0);
    lemma_button_at(page, n + 3, 1);
    if miniapp_url is Some {
        assert(page.board->0[n + 4] == panel_rows(miniapp_url)[0]);
        lemma_button_at(page, n + 4, 0);
    }
    reveal_strlit("</b>\n收藏 ");
    reveal_strlit("收藏 ");
    reveal_strlit(" 条 · 累计查询 ");
    reveal_strlit(" 条");
    reveal_strlit("累计查询 ");
    reveal_strlit(" 次\n");
    reveal_strlit(" 次");
    let kept = "收藏 "@ + dec(user.favorites.len()) + " 条"@;
    let asked = "累计查询 "@ + dec(user.queries as nat) + " 次"@;
    let b = seq!['<', '/', 'b', '>', '\n'];
    assert("</b>\n收藏 "@ =~= b + "收藏 "@);
    assert(" 条 · 累计查询 "@ =~= " 条"@ + seq![' ', '·', ' '] + "累计查询 "@);
    let again = "🚏 <b>WhereBus</b> · 实时公交\n\n当前城市：<b>"@ + escaped(or_text(user.city_label, "未选择"@)) + b + kept + seq![
        ' ',
        '·',
        ' ',
    ] + asked + seq!['\n'] + hour_text(list, hour);
    assert(page.text =~= again);
    assert(has(again, kept) && has(again, asked));
}

/// The page of a watch can stop the one that is under way; without one it offers a watch for every favourite.
pub proof fn law_watch_page_stops_or_begins(user: UserStateModel, poll_secs: u64, k: int)
    ensures
        user.watch is Some ==> has_button(watch_page(user, poll_secs), act_button("⏹ 停止盯车"@, ActionModel::WatchStop)) && has(
            watch_page(user, poll_secs).text,
            escaped(watch_label(user.watch->0)),
        ),
        user.watch is None && 0 <= k < user.favorites.len() ==> offers(
            watch_page(user, poll_secs),
            ActionModel::WatchSetup {
                service: user.favorites[k].service,
                direction: user.favorites[k].direction,
                order: user.favorites[k].order,
            },
        ),
{
    broadcast use group_has;

    let page = watch_page(user, poll_secs);
    if user.watch is Some {
        lemma_button_at(page, 0, 0);
    } else if 0 <= k < user.favorites.len() {
        let f = user.favorites[k];
        assert(page.board->0[k] == watch_favorite_row(f));
        lemma_button_at(page, k, 0);
        assert(has_button(
            page,
            act_button(
                "🔔 "@ + shortened(at_stop(f.line_name, f.station_name), 24),
                ActionModel::WatchSetup { service: f.service, direction: f.direction, order: f.order },
            ),
        ));
    }
}

/// The page of habits has a button for each of the three lines that are looked up most, in their order.
pub proof fn law_habits_can_be_looked_up(user: UserStateModel, hour: u32, i: int)
    requires
        0 <= i < most_queried(user.habits, 3).len(),
    ensures
        ({
            let h = most_queried(user.habits, 3)[i];
            let board = habits_page(user, hour).board;
            board is Inline && i < board->0.len() && board->0[i].len() == 1 && board->0[i][0] == act_button(
                "🕘 "@ + h.label,
                ActionModel::Live { service: h.service, direction: h.direction, order: h.order },
            )
        }),
{
    assert(habits_page(user, hour).board->0[i] == habit_row(most_queried(user.habits, 3)[i]));
}

/// The panel is opened by a button where it has an address.
pub proof fn law_panel_is_opened_at_its_address(url: Seq<char>)
    ensures
        has_button(panel_page(Some(url)), (ButtonModel { label: "🧭 打开我的面板"@, target: TargetModel::Link(url) })),
        panel_page(None).board is Bare,
{
    lemma_button_at(panel_page(Some(url)), 0, 0);
}

} // verus!
