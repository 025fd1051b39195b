//! What the buttons do, and the short tokens that stand for it.
//!
//! The data that a button hands back may hold 64 bytes, so it is only a token; what it stands for is
//! kept in a [`TokenTable`], from which the oldest token is dropped when it is full.
use crate::models::Double;
use crate::store::AlertField;
use crate::telegram::{keys_view, Key, KeyModel, Press, PressModel};
use crate::text::{
    after_prefix, begins, copy, dec, decimal, lemma_dec_len, lemma_read_of_dec, opt_view, parse_nat, read_nat,
};
use std::collections::{HashMap, VecDeque};
use vstd::prelude::*;

verus! {

/// How many tokens are kept.
pub const MAX_TOKENS: usize = 20_000;

/// What a button does.
#[derive(Debug, PartialEq)]
pub enum Action {
    /// Choose a data source.
    PickService { service: String, label: String },
    /// Turn to a page of cities.
    CityPage { keyword: String, page: usize },
    /// Turn to a page of lines.
    SearchPage { keyword: String, page: usize },
    /// Show a line.
    Line { service: String, direction: String, page: usize },
    /// Show the arrivals at a stop.
    Live { service: String, direction: String, order: u32 },
    /// Add or remove a favourite.
    FavToggle { service: String, direction: String, order: u32 },
    /// Remove a favourite from the list.
    FavRemove { service: String, direction: String, order: u32 },
    /// Show the lines of a stop.
    Station { service: String, name: String, lat: Double, lng: Double },
    /// Show the stops near the last position.
    NearbyHere,
    /// Show the vehicles to wait for.
    WatchSetup { service: String, direction: String, order: u32 },
    /// Begin to watch; no vehicle: whichever comes first.
    WatchStart { service: String, direction: String, order: u32, bus: Option<String> },
    /// Stop watching.
    WatchStop,
    /// Change a setting.
    SettingsAdjust { field: AlertField, steps: i64 },
    /// Go back to the defaults.
    SettingsReset,
}

/// What an [`Action`] holds.
#[verifier::ext_equal]
pub enum ActionModel {
    PickService { service: Seq<char>, label: Seq<char> },
    CityPage { keyword: Seq<char>, page: usize },
    SearchPage { keyword: Seq<char>, page: usize },
    Line { service: Seq<char>, direction: Seq<char>, page: usize },
    Live { service: Seq<char>, direction: Seq<char>, order: u32 },
    FavToggle { service: Seq<char>, direction: Seq<char>, order: u32 },
    FavRemove { service: Seq<char>, direction: Seq<char>, order: u32 },
    Station { service: Seq<char>, name: Seq<char>, lat: Double, lng: Double },
    NearbyHere,
    WatchSetup { service: Seq<char>, direction: Seq<char>, order: u32 },
    WatchStart { service: Seq<char>, direction: Seq<char>, order: u32, bus: Option<Seq<char>> },
    WatchStop,
    SettingsAdjust { field: AlertField, steps: i64 },
    SettingsReset,
}

impl View for Action {
    type V = ActionModel;

    open spec fn view(&self) -> ActionModel {
        match *self {
            Action::PickService { service, label } => ActionModel::PickService { service: service@, label: label@ },
            Action::CityPage { keyword, page } => ActionModel::CityPage { keyword: keyword@, page: page },
            Action::SearchPage { keyword, page } => ActionModel::SearchPage { keyword: keyword@, page: page },
            Action::Line { service, direction, page } => ActionModel::Line { service: service@, direction: direction@, page: page },
            Action::Live { service, direction, order } => ActionModel::Live { service: service@, direction: direction@, order: order },
            Action::FavToggle { service, direction, order } => ActionModel::FavToggle { service: service@, direction: direction@, order: order },
            Action::FavRemove { service, direction, order } => ActionModel::FavRemove { service: service@, direction: direction@, order: order },
            Action::Station { service, name, lat, lng } => ActionModel::Station { service: service@, name: name@, lat: lat, lng: lng },
            Action::NearbyHere => ActionModel::NearbyHere,
            Action::WatchSetup { service, direction, order } => ActionModel::WatchSetup { service: service@, direction: direction@, order: order },
            Action::WatchStart { service, direction, order, bus } => ActionModel::WatchStart { service: service@, direction: direction@, order: order, bus: opt_view(bus) },
            Action::WatchStop => ActionModel::WatchStop,
            Action::SettingsAdjust { field, steps } => ActionModel::SettingsAdjust { field: field, steps: steps },
            Action::SettingsReset => ActionModel::SettingsReset,
        }
    }
}

impl Clone for Action {
    fn clone(&self) -> (r: Self)
        ensures
            r@ == self@,
    {
        match self {
            Action::PickService { service, label } => Action::PickService { service: service.clone(), label: label.clone() },
            Action::CityPage { keyword, page } => Action::CityPage { keyword: keyword.clone(), page: *page },
            Action::SearchPage { keyword, page } => Action::SearchPage { keyword: keyword.clone(), page: *page },
            Action::Line { service, direction, page } => Action::Line { service: service.clone(), direction: direction.clone(), page: *page },
            Action::Live { service, direction, order } => Action::Live { service: service.clone(), direction: direction.clone(), order: *order },
            Action::FavToggle { service, direction, order } => Action::FavToggle { service: service.clone(), direction: direction.clone(), order: *order },
            Action::FavRemove { service, direction, order } => Action::FavRemove { service: service.clone(), direction: direction.clone(), order: *order },
            Action::Station { service, name, lat, lng } => Action::Station { service: service.clone(), name: name.clone(), lat: *lat, lng: *lng },
            Action::NearbyHere => Action::NearbyHere,
            Action::WatchSetup { service, direction, order } => Action::WatchSetup { service: service.clone(), direction: direction.clone(), order: *order },
            Action::WatchStart { service, direction, order, bus } => Action::WatchStart { service: service.clone(), direction: direction.clone(), order: *order, bus: bus.clone() },
            Action::WatchStop => Action::WatchStop,
            Action::SettingsAdjust { field, steps } => Action::SettingsAdjust { field: *field, steps: *steps },
            Action::SettingsReset => Action::SettingsReset,
        }
    }
}

/// What a planned button leads to.
#[derive(Debug, PartialEq)]
pub enum Target {
    /// A part of the menu.
    Menu(String),
    /// An action, for which a token is issued when the message is sent.
    Act(Action),
    /// A web page.
    Link(String),
}

/// What a [`Target`] holds.
#[verifier::ext_equal]
pub enum TargetModel {
    Menu(Seq<char>),
    Act(ActionModel),
    Link(Seq<char>),
}

impl View for Target {
    type V = TargetModel;

    open spec fn view(&self) -> TargetModel {
        match *self {
            Target::Menu(x) => TargetModel::Menu(x@),
            Target::Act(x) => TargetModel::Act(x@),
            Target::Link(x) => TargetModel::Link(x@),
        }
    }
}

impl Clone for Target {
    fn clone(&self) -> (r: Self)
        ensures
            r@ == self@,
    {
        match self {
            Target::Menu(x) => Target::Menu(x.clone()),
            Target::Act(x) => Target::Act(x.clone()),
            Target::Link(x) => Target::Link(x.clone()),
        }
    }
}

/// A planned button.
#[derive(Debug)]
pub struct Button {
    pub label: String,
    pub target: Target,
}

/// What a [`Button`] holds.
#[verifier::ext_equal]
pub struct ButtonModel {
    pub label: Seq<char>,
    pub target: TargetModel,
}

impl View for Button {
    type V = ButtonModel;

    open spec fn view(&self) -> ButtonModel {
        ButtonModel {
            label: self.label@,
            target: self.target@,
        }
    }
}

impl Button {
    /// What a list of [`Button`] holds.
    pub open spec fn models(list: Seq<Button>) -> Seq<ButtonModel> {
        list.map_values(|x: Button| x@)
    }
}

impl Clone for Button {
    fn clone(&self) -> (r: Self)
        ensures
            r@ == self@,
    {
        let r = Button {
            label: self.label.clone(),
            target: self.target.clone(),
        };
        r
    }
}

/// The planned buttons of a message, row by row.
pub open spec fn rows_view(rows: Seq<Vec<Button>>) -> Seq<Seq<ButtonModel>> {
    rows.map_values(|row: Vec<Button>| Button::models(row@))
}

// ─── the table ───

struct TokenState {
    next: u64,
    actions: HashMap<u64, Action>,
    order: VecDeque<u64>,
}

/// The tokens that are in use.
pub struct TokenTable {
    state: TokenState,
}

/// What a [`TokenTable`] holds.
#[verifier::ext_equal]
pub struct TokenModel {
    /// The number of the next token.
    pub next: u64,
    /// What each token stands for.
    pub actions: Map<u64, ActionModel>,
    /// The tokens, oldest first.
    pub order: Seq<u64>,
}

/// The number that is `k` after `n`, counting on from 0 after the largest.
pub open spec fn counted_on(n: u64, k: int) -> u64 {
    ((n + k) % 0x1_0000_0000_0000_0000) as u64
}

/// The tokens are numbered on without a gap, there are not too many, and each stands for something.
pub open spec fn tokens_fit(t: TokenModel) -> bool {
    &&& t.order.len() <= MAX_TOKENS
    &&& t.actions.dom() == t.order.to_set()
    &&& forall|i: int|
        0 <= i < t.order.len() ==> #[trigger] t.order[i] == counted_on(t.next, i - t.order.len())
}

/// The table after a token was issued: the oldest one is gone where there are too many.
pub open spec fn with_token(t: TokenModel, action: ActionModel) -> TokenModel {
    let actions = t.actions.insert(t.next, action);
    let order = t.order.push(t.next);
    if order.len() > MAX_TOKENS {
        TokenModel { next: counted_on(t.next, 1), actions: actions.remove(order[0]), order: order.drop_first() }
    } else {
        TokenModel { next: counted_on(t.next, 1), actions: actions, order: order }
    }
}

/// The data of a token.
pub open spec fn token_data(id: u64) -> Seq<char> {
    "t:"@ + dec(id as nat)
}

/// What data stands for.
pub open spec fn action_of(t: TokenModel, data: Seq<char>) -> Option<ActionModel> {
    if begins(data, "t:"@) {
        match read_nat(data.skip(2), u64::MAX as nat) {
            Some(id) => if t.actions.dom().contains(id as u64) {
                Some(t.actions[id as u64])
            } else {
                None
            },
            None => None,
        }
    } else {
        None
    }
}

proof fn lemma_counted_differ(n: u64, a: int, b: int)
    requires
        -20_001 <= a < b <= 0,
    ensures
        counted_on(n, a) != counted_on(n, b),
{
    let m = 0x1_0000_0000_0000_0000int;
    assert((n + a) % m != (n + b) % m) by {
        if n + a >= 0 {
            assert((n + a) % m == n + a);
        } else {
            assert((n + a) % m == n + a + m);
        }
        if n + b >= 0 {
            assert((n + b) % m == n + b);
        } else {
            assert((n + b) % m == n + b + m);
        }
    }
}

/// The tokens in use are all different, and the next one is new.
pub proof fn law_tokens_differ(t: TokenModel)
    requires
        tokens_fit(t),
    ensures
        t.order.no_duplicates(),
        !t.actions.dom().contains(t.next),
{
    let n = t.order.len() as int;
    assert forall|i: int, j: int| 0 <= i < n && 0 <= j < n && i != j implies t.order[i] != t.order[j] by {
        if i < j {
            lemma_counted_differ(t.next, i - n, j - n);
        } else {
            lemma_counted_differ(t.next, j - n, i - n);
        }
    }
    if t.actions.dom().contains(t.next) {
        assert(t.order.contains(t.next));
        let i = choose|i: int| 0 <= i < n && t.order[i] == t.next;
        lemma_counted_differ(t.next, i - n, 0);
        assert(counted_on(t.next, 0) == t.next);
    }
}

/// Issuing a token keeps the table in order.
pub proof fn law_issuing_keeps_order(t: TokenModel, action: ActionModel)
    requires
        tokens_fit(t),
    ensures
        tokens_fit(with_token(t, action)),
{
    law_tokens_differ(t);
    let n = t.order.len() as int;
    let after = with_token(t, action);
    let all = t.order.push(t.next);
    let m = 0x1_0000_0000_0000_0000int;
    assert forall|i: int| 0 <= i < all.len() implies #[trigger] all[i] == counted_on(after.next, i - all.len()) by {
        assert((t.next + 1) % m + (i - all.len()) == t.next + (i - n) || (t.next + 1) % m + (i - all.len()) == t.next
            + (i - n) - m);
        if i < n {
            assert(all[i] == t.order[i]);
            assert((t.next + (i - n)) % m == ((t.next + 1) % m + (i - all.len())) % m) by {
                let x = t.next + (i - n);
                let y = (t.next + 1) % m + (i - all.len());
                if y == x - m {
                    lemma_mod_shift(x, m);
                }
            }
        } else {
            assert(counted_on(t.next, 0) == t.next);
            let y = (t.next + 1) % m - 1;
            if t.next + 1 == m {
                assert(y == -1);
            } else {
                assert(y == t.next);
            }
        }
    }
    let with = t.actions.insert(t.next, action);
    assert forall|id: u64| with.dom().contains(id) <==> all.to_set().contains(id) by {
        if all.contains(id) {
            let i = choose|i: int| 0 <= i < all.len() && all[i] == id;
            if i < n {
                assert(t.order[i] == id);
                assert(t.order.contains(id));
            }
        }
        if t.order.contains(id) {
            let i = choose|i: int| 0 <= i < n && t.order[i] == id;
            assert(all[i] == id);
        }
        assert(all[n] == t.next);
    }
    assert(with.dom() =~= all.to_set());
    if all.len() > MAX_TOKENS {
        let rest = all.drop_first();
        assert forall|id: u64| with.remove(all[0]).dom().contains(id) <==> rest.to_set().contains(id) by {
            if rest.contains(id) {
                let i = choose|i: int| 0 <= i < rest.len() && rest[i] == id;
                assert(all[i + 1] == id);
                assert(all.contains(id));
                assert(all[0] != all[i + 1]) by {
                    if i + 1 < n {
                        assert(t.order[0] != t.order[i + 1]);
                    } else {
                        assert(t.order.contains(t.order[0]));
                    }
                }
            }
            if all.contains(id) && id != all[0] {
                let i = choose|i: int| 0 <= i < all.len() && all[i] == id;
                assert(rest[i - 1] == id);
            }
        }
        assert(with.remove(all[0]).dom() =~= rest.to_set());
        assert forall|i: int| 0 <= i < rest.len() implies #[trigger] rest[i] == counted_on(after.next, i - rest.len()) by {
            assert(rest[i] == all[i + 1]);
        }
    }
}

proof fn lemma_mod_shift(x: int, m: int)
    requires
        m == 0x1_0000_0000_0000_0000int,
    ensures
        (x - m) % m == x % m,
{
}

/// The table after several tokens were issued.
pub open spec fn with_tokens(t: TokenModel, actions: Seq<ActionModel>) -> TokenModel
    decreases actions.len(),
{
    if actions.len() == 0 {
        t
    } else {
        with_token(with_tokens(t, actions.drop_last()), actions.last())
    }
}

proof fn lemma_still_there(t: TokenModel, action: ActionModel, later: Seq<ActionModel>)
    requires
        tokens_fit(t),
        later.len() < MAX_TOKENS,
    ensures
        ({
            let after = with_tokens(with_token(t, action), later);
            &&& tokens_fit(after)
            &&& after.actions.dom().contains(t.next)
            &&& after.actions[t.next] == action
            &&& after.order.len() > later.len()
            &&& after.order[after.order.len() - 1 - later.len()] == t.next
        }),
    decreases later.len(),
{
    law_issuing_keeps_order(t, action);
    law_tokens_differ(t);
    if later.len() > 0 {
        let before = with_tokens(with_token(t, action), later.drop_last());
        lemma_still_there(t, action, later.drop_last());
        law_issuing_keeps_order(before, later.last());
        law_tokens_differ(before);
        let at = before.order.len() - 1 - (later.len() - 1);
        if before.order.len() + 1 > MAX_TOKENS {
            assert(at > 0);
            assert(before.order[0] != before.order[at]);
            assert(before.order.push(before.next)[0] == before.order[0]);
        }
    } else {
        let once = with_token(t, action);
        if t.order.len() + 1 > MAX_TOKENS {
            assert(t.order.push(t.next)[0] == t.order[0]);
            assert(t.order.contains(t.order[0]));
        }
    }
}

/// A token stands for the action that it was issued for until as many tokens as the table holds were
/// issued after it.
pub proof fn law_token_gives_back_its_action(t: TokenModel, action: ActionModel, later: Seq<ActionModel>)
    requires
        tokens_fit(t),
        later.len() < MAX_TOKENS,
    ensures
        action_of(with_tokens(with_token(t, action), later), token_data(t.next)) == Some(action),
{
    lemma_still_there(t, action, later);
    lemma_token_data(t.next);
}

proof fn lemma_counted_adds(n: u64, a: int, b: int)
    ensures
        counted_on(counted_on(n, a), b) == counted_on(n, a + b),
{
    let m = 0x1_0000_0000_0000_0000int;
    vstd::arithmetic::div_mod::lemma_add_mod_noop_right(b, n + a, m);
    assert((n + a) % m + b == b + (n + a) % m);
    assert(b + (n + a) == n + (a + b));
}

proof fn lemma_counted_moves(n: u64, k: int)
    requires
        0 < k < 0x1_0000_0000_0000_0000,
    ensures
        counted_on(n, k) != n,
{
    let m = 0x1_0000_0000_0000_0000int;
    if n + k < m {
        assert((n + k) % m == n + k);
    } else {
        assert((n + k) % m == n + k - m);
    }
}

proof fn lemma_numbered_on(t: TokenModel, actions: Seq<ActionModel>)
    requires
        tokens_fit(t),
    ensures
        tokens_fit(with_tokens(t, actions)),
        with_tokens(t, actions).next == counted_on(t.next, actions.len() as int),
    decreases actions.len(),
{
    if actions.len() > 0 {
        let before = with_tokens(t, actions.drop_last());
        lemma_numbered_on(t, actions.drop_last());
        law_issuing_keeps_order(before, actions.last());
        lemma_counted_adds(t.next, actions.len() - 1, 1);
    }
}

/// A number is not issued a second time before all the others were.
pub proof fn law_tokens_are_new(t: TokenModel, issued: Seq<ActionModel>)
    requires
        tokens_fit(t),
        0 < issued.len() < 0x1_0000_0000_0000_0000,
    ensures
        with_tokens(t, issued).next != t.next,
{
    lemma_numbered_on(t, issued);
    lemma_counted_moves(t.next, issued.len() as int);
}

/// A token is forgotten as soon as as many tokens as the table holds were issued after it, and stays
/// forgotten until its number comes round again.
pub proof fn law_oldest_token_is_forgotten(t: TokenModel, action: ActionModel, later: Seq<ActionModel>)
    requires
        tokens_fit(t),
        MAX_TOKENS <= later.len() < 0x1_0000_0000_0000_0000,
    ensures
        action_of(with_tokens(with_token(t, action), later), token_data(t.next)) is None,
        MAX_TOKENS == 20_000,
{
    let once = with_token(t, action);
    let after = with_tokens(once, later);
    law_issuing_keeps_order(t, action);
    lemma_numbered_on(once, later);
    lemma_counted_adds(t.next, 1, later.len() as int);
    assert(!after.actions.dom().contains(t.next)) by {
        if after.order.to_set().contains(t.next) {
            let i = choose|i: int| 0 <= i < after.order.len() && after.order[i] == t.next;
            let back = i - after.order.len();
            assert(after.order[i] == counted_on(after.next, back));
            let on = 1 + later.len() as int;
            lemma_counted_adds(t.next, on, back);
            lemma_counted_moves(t.next, on + back);
        }
    }
    lemma_token_data(t.next);
}

/// The data of a token is short enough for a button, and reads back as its number.
pub proof fn law_token_data_is_short(id: u64)
    ensures
        token_data(id).len() <= 64,
        begins(token_data(id), "t:"@),
        read_nat(token_data(id).skip(2), u64::MAX as nat) == Some(id as nat),
{
    lemma_token_data(id);
}

proof fn lemma_token_data(id: u64)
    ensures
        token_data(id).len() <= 22,
        begins(token_data(id), "t:"@),
        read_nat(token_data(id).skip(2), u64::MAX as nat) == Some(id as nat),
{
    reveal_strlit("t:");
    lemma_read_of_dec(id as nat, u64::MAX as nat);
    assert(vstd::arithmetic::power::pow(10, 20) == 100_000_000_000_000_000_000int) by {
        reveal_with_fuel(vstd::arithmetic::power::pow, 21);
    }
    lemma_dec_len(id as nat, 20);
    let data = token_data(id);
    assert(data.subrange(0, 2) =~= "t:"@);
    assert(data.skip(2) =~= dec(id as nat));
}

impl TokenState {
    spec fn model(self) -> TokenModel {
        TokenModel {
            next: self.next,
            actions: self.actions@.map_values(|a: Action| a@),
            order: self.order@,
        }
    }
}

impl View for TokenTable {
    type V = TokenModel;

    closed spec fn view(&self) -> TokenModel {
        self.state.model()
    }
}

impl TokenTable {
    #[verifier::type_invariant]
    spec fn in_order(self) -> bool {
        tokens_fit(self.state.model())
    }

    /// A table without tokens.
    pub fn new() -> (r: TokenTable)
        ensures
            r@ == (TokenModel { next: 0, actions: Map::empty(), order: Seq::empty() }),
    {
        broadcast use vstd::std_specs::hash::group_hash_axioms;

        let state = TokenState { next: 0, actions: HashMap::new(), order: VecDeque::new() };
        assert(state.model().actions =~= Map::<u64, ActionModel>::empty());
        assert(state.model().actions.dom() =~= state.model().order.to_set());
        TokenTable { state: state }
    }

    /// Issues a token for an action: the data that stands for it.
    pub fn put(&mut self, action: Action) -> (r: String)
        ensures
            r@ == token_data(old(self)@.next),
            final(self)@ == with_token(old(self)@, action@),
            tokens_fit(old(self)@),
            tokens_fit(final(self)@),
    {
        broadcast use vstd::std_specs::hash::group_hash_axioms;

        proof {
            use_type_invariant(&*self);
            law_issuing_keeps_order(self@, action@);
            law_tokens_differ(self@);
        }
        let ghost before = self@;
        let mut state = TokenState { next: 0, actions: HashMap::new(), order: VecDeque::new() };
        assert(state.model().actions =~= Map::<u64, ActionModel>::empty());
        assert(state.model().actions.dom() =~= state.model().order.to_set());
        std::mem::swap(&mut state, &mut self.state);
        let id: u64 = state.next;
        state.next = id.wrapping_add(1);
        let ghost actions = state.actions@;
        state.actions.insert(id, action);
        assert(state.actions@.map_values(|a: Action| a@) =~= actions.map_values(|a: Action| a@).insert(id, action@));
        state.order.push_back(id);
        if state.order.len() > MAX_TOKENS {
            match state.order.pop_front() {
                Some(oldest) => {
                    let ghost now = state.actions@;
                    state.actions.remove(&oldest);
                    assert(state.actions@.map_values(|a: Action| a@) =~= now.map_values(|a: Action| a@).remove(oldest));
                },
                None => {},
            }
        }
        assert(state.model() =~= with_token(before, action@));
        self.state = state;
        let mut r = copy("t:");
        r.append(decimal(id).as_str());
        r
    }

    /// What data stands for.
    pub fn get(&self, data: &str) -> (r: Option<Action>)
        ensures
            match (r, action_of(self@, data@)) {
                (Some(a), Some(b)) => a@ == b,
                (None, None) => true,
                _ => false,
            },
    {
        broadcast use vstd::std_specs::hash::group_hash_axioms;

        proof {
            reveal_strlit("t:");
        }
        match after_prefix(data, "t:") {
            Some(rest) => match parse_nat(rest.as_str(), u64::MAX) {
                Some(id) => match self.state.actions.get(&id) {
                    Some(action) => Some(action.clone()),
                    None => None,
                },
                None => None,
            },
            None => None,
        }
    }
}

// ─── issuing the tokens of a message ───

/// A planned button as it is sent, and the table afterwards.
pub open spec fn key_of(t: TokenModel, b: ButtonModel) -> (TokenModel, KeyModel) {
    match b.target {
        TargetModel::Menu(part) => (t, KeyModel { label: b.label, press: PressModel::Data("m:"@ + part) }),
        TargetModel::Link(url) => (t, KeyModel { label: b.label, press: PressModel::WebApp(url) }),
        TargetModel::Act(action) => (
            with_token(t, action),
            KeyModel { label: b.label, press: PressModel::Data(token_data(t.next)) },
        ),
    }
}

/// A row of planned buttons as it is sent, and the table afterwards.
pub open spec fn row_keys(t: TokenModel, row: Seq<ButtonModel>) -> (TokenModel, Seq<KeyModel>)
    decreases row.len(),
{
    if row.len() == 0 {
        (t, Seq::empty())
    } else {
        let (mid, front) = row_keys(t, row.drop_last());
        let (after, key) = key_of(mid, row.last());
        (after, front.push(key))
    }
}

/// The planned buttons of a message as they are sent, and the table afterwards.
pub open spec fn board_keys(t: TokenModel, rows: Seq<Seq<ButtonModel>>) -> (TokenModel, Seq<Seq<KeyModel>>)
    decreases rows.len(),
{
    if rows.len() == 0 {
        (t, Seq::empty())
    } else {
        let (mid, front) = board_keys(t, rows.drop_last());
        let (after, row) = row_keys(mid, rows.last());
        (after, front.push(row))
    }
}

impl TokenTable {
    fn issue_row(&mut self, row: &Vec<Button>) -> (r: Vec<Key>)
        ensures
            row_keys(old(self)@, Button::models(row@)) == (final(self)@, Key::models(r@)),
    {
        let ghost start = self@;
        let ghost list = Button::models(row@);
        let mut out: Vec<Key> = Vec::new();
        let mut i: usize = 0;
        assert(list.take(0) =~= Seq::<ButtonModel>::empty());
        assert(Key::models(out@) =~= Seq::<KeyModel>::empty());
        while i < row.len()
            invariant
                i <= row@.len(),
                list == Button::models(row@),
                row_keys(start, list.take(i as int)) == (self@, Key::models(out@)),
            decreases row.len() - i,
        {
            let ghost had = Key::models(out@);
            let b = &row[i];
            assert(list.take(i + 1).drop_last() =~= list.take(i as int));
            assert(list.take(i + 1).last() == b@);
            let press = match &b.target {
                Target::Menu(part) => {
                    let mut data = copy("m:");
                    data.append(part.as_str());
                    Press::Data(data)
                },
                Target::Link(url) => Press::WebApp(url.clone()),
                Target::Act(action) => {
                    let data = self.put(action.clone());
                    Press::Data(data)
                },
            };
            let key = Key { label: b.label.clone(), press: press };
            out.push(key);
            assert(Key::models(out@) =~= had.push(key@));
            i += 1;
        }
        assert(list.take(i as int) =~= list);
        out
    }

    /// Issues the tokens of a message, row by row from the left, and gives its keyboard.
    pub fn issue(&mut self, rows: &Vec<Vec<Button>>) -> (r: Vec<Vec<Key>>)
        ensures
            board_keys(old(self)@, rows_view(rows@)) == (final(self)@, keys_view(r@)),
    {
        let ghost start = self@;
        let ghost list = rows_view(rows@);
        let mut out: Vec<Vec<Key>> = Vec::new();
        let mut i: usize = 0;
        assert(list.take(0) =~= Seq::<Seq<ButtonModel>>::empty());
        assert(keys_view(out@) =~= Seq::<Seq<KeyModel>>::empty());
        while i < rows.len()
            invariant
                i <= rows@.len(),
                list == rows_view(rows@),
                board_keys(start, list.take(i as int)) == (self@, keys_view(out@)),
            decreases rows.len() - i,
        {
            let ghost had = keys_view(out@);
            assert(list.take(i + 1).drop_last() =~= list.take(i as int));
            assert(list.take(i + 1).last() == Button::models(rows@[i as int]@));
            let row = self.issue_row(&rows[i]);
            out.push(row);
            assert(keys_view(out@) =~= had.push(Key::models(row@)));
            i += 1;
        }
        assert(list.take(i as int) =~= list);
        out
    }
}

// ─── what a press of a button does ───

/// The actions of the buttons of a row.
pub open spec fn row_actions(row: Seq<ButtonModel>) -> Seq<ActionModel>
    decreases row.len(),
{
    if row.len() == 0 {
        Seq::empty()
    } else {
        match row.last().target {
            TargetModel::Act(action) => row_actions(row.drop_last()).push(action),
            _ => row_actions(row.drop_last()),
        }
    }
}

/// The actions of the buttons of a board.
pub open spec fn board_actions(rows: Seq<Seq<ButtonModel>>) -> Seq<ActionModel>
    decreases rows.len(),
{
    if rows.len() == 0 {
        Seq::empty()
    } else {
        board_actions(rows.drop_last()) + row_actions(rows.last())
    }
}

proof fn lemma_with_tokens_add(t: TokenModel, a: Seq<ActionModel>, b: Seq<ActionModel>)
    ensures
        with_tokens(t, a + b) == with_tokens(with_tokens(t, a), b),
    decreases b.len(),
{
    if b.len() == 0 {
        assert(a + b =~= a);
    } else {
        lemma_with_tokens_add(t, a, b.drop_last());
        assert((a + b).drop_last() =~= a + b.drop_last());
    }
}

proof fn lemma_row_actions_add(a: Seq<ButtonModel>, b: Seq<ButtonModel>)
    ensures
        row_actions(a + b) == row_actions(a) + row_actions(b),
    decreases b.len(),
{
    if b.len() == 0 {
        assert(a + b =~= a);
    } else {
        lemma_row_actions_add(a, b.drop_last());
        assert((a + b).drop_last() =~= a + b.drop_last());
    }
}

proof fn lemma_board_actions_add(a: Seq<Seq<ButtonModel>>, b: Seq<Seq<ButtonModel>>)
    ensures
        board_actions(a + b) == board_actions(a) + board_actions(b),
    decreases b.len(),
{
    if b.len() == 0 {
        assert(a + b =~= a);
    } else {
        lemma_board_actions_add(a, b.drop_last());
        assert((a + b).drop_last() =~= a + b.drop_last());
    }
}

proof fn lemma_row_keys(t: TokenModel, row: Seq<ButtonModel>)
    ensures
        row_keys(t, row).0 == with_tokens(t, row_actions(row)),
        row_keys(t, row).1.len() == row.len(),
        forall|j: int|
            0 <= j < row.len() ==> #[trigger] row_keys(t, row).1[j] == key_of(with_tokens(t, row_actions(row.take(j))), row[j]).1,
    decreases row.len(),
{
    if row.len() > 0 {
        let front = row.drop_last();
        lemma_row_keys(t, front);
        let acts = row_actions(front);
        match row.last().target {
            TargetModel::Act(action) => {
                assert(acts.push(action).drop_last() =~= acts);
            },
            _ => {},
        }
        assert forall|j: int| 0 <= j < row.len() implies #[trigger] row_keys(t, row).1[j] == key_of(
            with_tokens(t, row_actions(row.take(j))),
            row[j],
        ).1 by {
            if j < front.len() {
                assert(front.take(j) =~= row.take(j));
                assert(row_keys(t, row).1[j] == row_keys(t, front).1[j]);
            } else {
                assert(row.take(j) =~= front);
            }
        }
    }
}

proof fn lemma_board_keys(t: TokenModel, rows: Seq<Seq<ButtonModel>>)
    ensures
        board_keys(t, rows).0 == with_tokens(t, board_actions(rows)),
        board_keys(t, rows).1.len() == rows.len(),
        forall|i: int|
            0 <= i < rows.len() ==> #[trigger] board_keys(t, rows).1[i] == row_keys(
                with_tokens(t, board_actions(rows.take(i))),
                rows[i],
            ).1,
    decreases rows.len(),
{
    if rows.len() > 0 {
        let front = rows.drop_last();
        lemma_board_keys(t, front);
        lemma_row_keys(with_tokens(t, board_actions(front)), rows.last());
        lemma_with_tokens_add(t, board_actions(front), row_actions(rows.last()));
        assert forall|i: int| 0 <= i < rows.len() implies #[trigger] board_keys(t, rows).1[i] == row_keys(
            with_tokens(t, board_actions(rows.take(i))),
            rows[i],
        ).1 by {
            if i < front.len() {
                assert(front.take(i) =~= rows.take(i));
                assert(board_keys(t, rows).1[i] == board_keys(t, front).1[i]);
            } else {
                assert(rows.take(i) =~= front);
            }
        }
    }
}

/// A button of a board that is shown carries its label, and a press of it does what it is for: its action comes back
/// from what the button sends, its part of the menu is named, its page is opened.
pub proof fn law_pressed_button_does_its_action(t: TokenModel, rows: Seq<Seq<ButtonModel>>, i: int, j: int)
    requires
        tokens_fit(t),
        board_actions(rows).len() <= MAX_TOKENS,
        0 <= i < rows.len(),
        0 <= j < rows[i].len(),
    ensures
        board_keys(t, rows).1.len() == rows.len(),
        board_keys(t, rows).1[i].len() == rows[i].len(),
        ({
            let (after, keys) = board_keys(t, rows);
            let key = keys[i][j];
            &&& key.label == rows[i][j].label
            &&& match rows[i][j].target {
                TargetModel::Act(action) => key.press matches PressModel::Data(data) && action_of(after, data) == Some(action),
                TargetModel::Menu(part) => key.press matches PressModel::Data(data) && data == "m:"@ + part,
                TargetModel::Link(url) => key.press matches PressModel::WebApp(link) && link == url,
            }
        }),
{
    let row = rows[i];
    let before = board_actions(rows.take(i));
    let t1 = with_tokens(t, before);
    lemma_board_keys(t, rows);
    lemma_row_keys(t1, row);
    let in_row = row_actions(row.take(j));
    let t2 = with_tokens(t1, in_row);
    assert(board_keys(t, rows).1[i] == row_keys(t1, row).1);
    match row[j].target {
        TargetModel::Act(action) => {
            let later = row_actions(row.skip(j + 1)) + board_actions(rows.skip(i + 1));
            let all = board_actions(rows);
            assert(all == (before + in_row).push(action) + later) by {
                assert(rows =~= rows.take(i) + (seq![row] + rows.skip(i + 1)));
                lemma_board_actions_add(rows.take(i), seq![row] + rows.skip(i + 1));
                lemma_board_actions_add(seq![row], rows.skip(i + 1));
                assert(board_actions(seq![row]) =~= row_actions(row)) by {
                    assert(seq![row].drop_last() =~= Seq::<Seq<ButtonModel>>::empty());
                    assert(board_actions(seq![row].drop_last()) =~= Seq::<ActionModel>::empty());
                }
                assert(row =~= row.take(j) + (seq![row[j]] + row.skip(j + 1)));
                lemma_row_actions_add(row.take(j), seq![row[j]] + row.skip(j + 1));
                lemma_row_actions_add(seq![row[j]], row.skip(j + 1));
                assert(row_actions(seq![row[j]]) =~= seq![action]) by {
                    assert(seq![row[j]].drop_last() =~= Seq::<ButtonModel>::empty());
                    assert(row_actions(seq![row[j]].drop_last()) =~= Seq::<ActionModel>::empty());
                }
                assert(before + (in_row + (seq![action] + row_actions(row.skip(j + 1))) + board_actions(rows.skip(i + 1))) =~= (before
                    + in_row).push(action) + later);
            }
            lemma_with_tokens_add(t, before, in_row);
            lemma_with_tokens_add(t, (before + in_row).push(action), later);
            assert((before + in_row).push(action).drop_last() =~= before + in_row);
            lemma_numbered_on(t, before + in_row);
            assert(with_tokens(t, all) == with_tokens(with_token(t2, action), later));
            law_token_gives_back_its_action(t2, action, later);
        },
        _ => {},
    }
}

} // verus!
