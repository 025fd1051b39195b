//! The Bot API of Telegram: what comes from it, what is sent to it, and its errors.
//!
//! The requests themselves are made elsewhere; here is what they carry.
use crate::crypto::hex_char;
use crate::models::Double;
use crate::text::{
    blank, chars_of, contains, copy, dec_int, decimal_int, group_has, has, is_blank, lemma_has_through, lemma_joined_has, opt_view, text_of,
};
use vstd::prelude::*;

verus! {

/// Where the Bot API is, unless it is configured otherwise.
pub const DEFAULT_API_HOST: &'static str = "https://api.telegram.org";

/// How long a request for updates waits, in seconds.
pub const POLL_TIMEOUT_SECS: u32 = 25;

/// How many characters of a text are sent; Telegram takes 4096.
pub const MAX_TEXT_CHARS: usize = 3800;

/// How many characters of an answer to a button are sent.
pub const MAX_ANSWER_CHARS: usize = 190;

/// Why a request failed.
#[derive(Debug)]
pub enum TgError {
    Network(String),
    Api { code: i64, description: String, retry_after: Option<u64> },
}

/// What a [`TgError`] holds.
#[verifier::ext_equal]
pub enum TgErrorModel {
    Network(Seq<char>),
    Api { code: i64, description: Seq<char>, retry_after: Option<u64> },
}

impl View for TgError {
    type V = TgErrorModel;

    open spec fn view(&self) -> TgErrorModel {
        match *self {
            TgError::Network(x) => TgErrorModel::Network(x@),
            TgError::Api { code, description, retry_after } => TgErrorModel::Api { code: code, description: description@, retry_after: retry_after },
        }
    }
}

/// The message for an error.
pub open spec fn tg_message(e: TgErrorModel) -> Seq<char> {
    match e {
        TgErrorModel::Network(what) => "网络错误: "@ + what,
        TgErrorModel::Api { code, description, .. } => "Telegram 接口错误 "@ + dec_int(code as int) + ": "@ + description,
    }
}

impl TgError {
    /// Whether the message was left as it was because its content is the same: no failure.
    pub fn is_not_modified(&self) -> (r: bool)
        ensures
            r == match self@ {
                TgErrorModel::Api { description, .. } => has(description, "message is not modified"@),
                TgErrorModel::Network(_) => false,
            },
    {
        match self {
            TgError::Api { description, .. } => contains(description.as_str(), "message is not modified"),
            TgError::Network(_) => false,
        }
    }

    /// After how many seconds to try again, where Telegram says so.
    pub fn retry_after(&self) -> (r: Option<u64>)
        ensures
            r == match self@ {
                TgErrorModel::Api { retry_after, .. } => retry_after,
                TgErrorModel::Network(_) => None,
            },
    {
        match self {
            TgError::Api { retry_after, .. } => *retry_after,
            TgError::Network(_) => None,
        }
    }

    /// The message for the error.
    pub fn message(&self) -> (r: String)
        ensures
            r@ == tg_message(self@),
    {
        match self {
            TgError::Network(what) => {
                let mut r = copy("网络错误: ");
                r.append(what.as_str());
                r
            },
            TgError::Api { code, description, .. } => {
                let mut r = copy("Telegram 接口错误 ");
                r.append(decimal_int(*code).as_str());
                r.append(": ");
                r.append(description.as_str());
                r
            },
        }
    }
}

/// What went wrong by the envelope of a reply; nothing where there is a result.
pub open spec fn envelope_error(
    ok: bool,
    has_result: bool,
    error_code: Option<i64>,
    description: Option<Seq<char>>,
    retry_after: Option<u64>,
) -> Option<TgErrorModel> {
    if ok && has_result {
        None
    } else if ok {
        Some(TgErrorModel::Api { code: 0, description: "接口返回成功但缺少 result"@, retry_after: None })
    } else {
        Some(
            TgErrorModel::Api {
                code: match error_code {
                    Some(code) => code,
                    None => 0,
                },
                description: match description {
                    Some(text) => text,
                    None => "未知错误"@,
                },
                retry_after: retry_after,
            },
        )
    }
}

/// What went wrong by the envelope of a reply; nothing where there is a result.
pub fn check_envelope(
    ok: bool,
    has_result: bool,
    error_code: Option<i64>,
    description: Option<String>,
    retry_after: Option<u64>,
) -> (r: Option<TgError>)
    ensures
        match (r, envelope_error(ok, has_result, error_code, opt_view(description), retry_after)) {
            (Some(a), Some(b)) => a@ == b,
            (None, None) => true,
            _ => false,
        },
{
    if ok && has_result {
        None
    } else if ok {
        Some(TgError::Api { code: 0, description: copy("接口返回成功但缺少 result"), retry_after: None })
    } else {
        let code: i64 = match error_code {
            Some(code) => code,
            None => 0,
        };
        let text = match description {
            Some(text) => text,
            None => copy("未知错误"),
        };
        Some(TgError::Api { code: code, description: text, retry_after: retry_after })
    }
}

// ─── updates ───

/// A position that a user has sent.
#[derive(Debug, Clone, Copy, PartialEq, Eq, Structural)]
pub struct Location {
    pub latitude: Double,
    pub longitude: Double,
}

/// A chat.
#[derive(Debug)]
pub struct Chat {
    pub id: i64,
    pub kind: String,
}

/// What a [`Chat`] holds.
#[verifier::ext_equal]
pub struct ChatModel {
    pub id: i64,
    pub kind: Seq<char>,
}

impl View for Chat {
    type V = ChatModel;

    open spec fn view(&self) -> ChatModel {
        ChatModel {
            id: self.id,
            kind: self.kind@,
        }
    }
}

impl Clone for Chat {
    fn clone(&self) -> (r: Self)
        ensures
            r@ == self@,
    {
        let r = Chat {
            id: self.id,
            kind: self.kind.clone(),
        };
        r
    }
}

/// A user of Telegram.
#[derive(Debug)]
pub struct User {
    pub id: i64,
    pub first_name: String,
    pub username: Option<String>,
}

/// What a [`User`] holds.
#[verifier::ext_equal]
pub struct UserModel {
    pub id: i64,
    pub first_name: Seq<char>,
    pub username: Option<Seq<char>>,
}

impl View for User {
    type V = UserModel;

    open spec fn view(&self) -> UserModel {
        UserModel {
            id: self.id,
            first_name: self.first_name@,
            username: opt_view(self.username),
        }
    }
}

impl Clone for User {
    fn clone(&self) -> (r: Self)
        ensures
            r@ == self@,
    {
        let r = User {
            id: self.id,
            first_name: self.first_name.clone(),
            username: self.username.clone(),
        };
        r
    }
}

/// A message.
#[derive(Debug)]
pub struct Message {
    pub message_id: i64,
    pub chat: Chat,
    pub from: Option<User>,
    pub text: Option<String>,
    pub location: Option<Location>,
}

/// What a [`Message`] holds.
#[verifier::ext_equal]
pub struct MessageModel {
    pub message_id: i64,
    pub chat: ChatModel,
    pub from: Option<UserModel>,
    pub text: Option<Seq<char>>,
    pub location: Option<Location>,
}

impl View for Message {
    type V = MessageModel;

    open spec fn view(&self) -> MessageModel {
        MessageModel {
            message_id: self.message_id,
            chat: self.chat@,
            from: (match self.from { Some(x) => Some(x@), None => None }),
            text: opt_view(self.text),
            location: self.location,
        }
    }
}

impl Clone for Message {
    fn clone(&self) -> (r: Self)
        ensures
            r@ == self@,
    {
        let r = Message {
            message_id: self.message_id,
            chat: self.chat.clone(),
            from: self.from.clone(),
            text: self.text.clone(),
            location: self.location,
        };
        r
    }
}

/// The press of a button.
#[derive(Debug)]
pub struct CallbackQuery {
    pub id: String,
    pub from: User,
    pub message: Option<Message>,
    pub data: Option<String>,
}

/// What a [`CallbackQuery`] holds.
#[verifier::ext_equal]
pub struct CallbackQueryModel {
    pub id: Seq<char>,
    pub from: UserModel,
    pub message: Option<MessageModel>,
    pub data: Option<Seq<char>>,
}

impl View for CallbackQuery {
    type V = CallbackQueryModel;

    open spec fn view(&self) -> CallbackQueryModel {
        CallbackQueryModel {
            id: self.id@,
            from: self.from@,
            message: (match self.message { Some(x) => Some(x@), None => None }),
            data: opt_view(self.data),
        }
    }
}

impl Clone for CallbackQuery {
    fn clone(&self) -> (r: Self)
        ensures
            r@ == self@,
    {
        let r = CallbackQuery {
            id: self.id.clone(),
            from: self.from.clone(),
            message: self.message.clone(),
            data: self.data.clone(),
        };
        r
    }
}

/// Something that has happened.
#[derive(Debug)]
pub struct Update {
    pub update_id: i64,
    pub message: Option<Message>,
    pub callback_query: Option<CallbackQuery>,
}

/// What a [`Update`] holds.
#[verifier::ext_equal]
pub struct UpdateModel {
    pub update_id: i64,
    pub message: Option<MessageModel>,
    pub callback_query: Option<CallbackQueryModel>,
}

impl View for Update {
    type V = UpdateModel;

    open spec fn view(&self) -> UpdateModel {
        UpdateModel {
            update_id: self.update_id,
            message: (match self.message { Some(x) => Some(x@), None => None }),
            callback_query: (match self.callback_query { Some(x) => Some(x@), None => None }),
        }
    }
}

impl Clone for Update {
    fn clone(&self) -> (r: Self)
        ensures
            r@ == self@,
    {
        let r = Update {
            update_id: self.update_id,
            message: self.message.clone(),
            callback_query: self.callback_query.clone(),
        };
        r
    }
}

// ─── requests ───

/// `s` without the slashes at its end.
pub open spec fn without_slashes(s: Seq<char>) -> Seq<char>
    decreases s.len(),
{
    if s.len() > 0 && s.last() == '/' {
        without_slashes(s.drop_last())
    } else {
        s
    }
}

/// Where the requests of a bot go.
pub open spec fn api_base_of(host: Option<Seq<char>>, token: Seq<char>) -> Seq<char> {
    let host = match host {
        Some(host) => if is_blank(host) {
            DEFAULT_API_HOST@
        } else {
            host
        },
        None => DEFAULT_API_HOST@,
    };
    without_slashes(host) + "/bot"@ + token
}

fn drop_slashes(s: &str) -> (r: String)
    ensures
        r@ == without_slashes(s@),
{
    let chars = chars_of(s);
    let mut to: usize = chars.len();
    assert(chars@.take(to as int) == chars@);
    while to > 0 && chars[to - 1] == '/'
        invariant
            to <= chars@.len(),
            without_slashes(chars@.take(to as int)) == without_slashes(chars@),
        decreases to,
    {
        assert(chars@.take(to as int).drop_last() == chars@.take(to - 1));
        to -= 1;
    }
    assert(chars@.subrange(0, to as int) == chars@.take(to as int));
    text_of(&chars, 0, to)
}

/// Where the requests of a bot go.
pub fn api_base(host: Option<String>, token: &str) -> (r: String)
    ensures
        r@ == api_base_of(opt_view(host), token@),
{
    let host = match host {
        Some(host) => if blank(host.as_str()) {
            copy(DEFAULT_API_HOST)
        } else {
            host
        },
        None => copy(DEFAULT_API_HOST),
    };
    let mut r = drop_slashes(host.as_str());
    r.append("/bot");
    r.append(token);
    r
}

/// At most the first `max` characters.
pub open spec fn at_most(s: Seq<char>, max: int) -> Seq<char> {
    if s.len() <= max {
        s
    } else {
        s.take(max)
    }
}

/// At most the first `max` characters.
pub fn first_chars(s: &str, max: usize) -> (r: String)
    ensures
        r@ == at_most(s@, max as int),
{
    let chars = chars_of(s);
    let to: usize = if chars.len() <= max {
        chars.len()
    } else {
        max
    };
    assert(chars@.subrange(0, to as int) == at_most(s@, max as int));
    text_of(&chars, 0, to)
}

/// A text that is not too long to be sent: a longer one is cut, and says so.
pub open spec fn clamped_text(text: Seq<char>) -> Seq<char> {
    if text.len() <= MAX_TEXT_CHARS {
        text
    } else {
        text.take(MAX_TEXT_CHARS as int) + "\n…（内容过长已截断）"@
    }
}

/// A text that is not too long to be sent: a longer one is cut, and says so.
pub fn clamp(text: &str) -> (r: String)
    ensures
        r@ == clamped_text(text@),
{
    let chars = chars_of(text);
    if chars.len() <= MAX_TEXT_CHARS {
        return copy(text);
    }
    assert(chars@.subrange(0, MAX_TEXT_CHARS as int) == text@.take(MAX_TEXT_CHARS as int));
    let mut r = text_of(&chars, 0, MAX_TEXT_CHARS);
    r.append("\n…（内容过长已截断）");
    r
}

/// Every text that is sent is short enough for Telegram, and a short one is sent as it is.
pub proof fn law_sent_text_is_short(text: Seq<char>)
    ensures
        clamped_text(text).len() <= 4096,
        text.len() <= MAX_TEXT_CHARS ==> clamped_text(text) == text,
{
    reveal_strlit("\n…（内容过长已截断）");
}

// ─── keyboards ───

/// A character inside a JSON string.
pub open spec fn json_char(c: char) -> Seq<char> {
    if c == '"' {
        seq!['\\', '"']
    } else if c == '\\' {
        seq!['\\', '\\']
    } else if c == '\u{8}' {
        seq!['\\', 'b']
    } else if c == '\u{9}' {
        seq!['\\', 't']
    } else if c == '\u{a}' {
        seq!['\\', 'n']
    } else if c == '\u{c}' {
        seq!['\\', 'f']
    } else if c == '\u{d}' {
        seq!['\\', 'r']
    } else if c <= '\u{1f}' {
        seq!['\\', 'u', '0', '0', hex_char(c as nat / 16), hex_char(c as nat % 16)]
    } else {
        seq![c]
    }
}

/// The characters of a text inside a JSON string.
pub open spec fn json_chars(text: Seq<char>) -> Seq<char>
    decreases text.len(),
{
    if text.len() == 0 {
        Seq::empty()
    } else {
        json_chars(text.drop_last()) + json_char(text.last())
    }
}

/// A text as a JSON string.
pub open spec fn json_quoted(text: Seq<char>) -> Seq<char> {
    seq!['"'] + json_chars(text) + seq!['"']
}

/// `serde_json::Value::from` a text and its `to_string`: the text between quotation marks, with
/// quotation marks, backslashes and control characters escaped and everything else as it is.
#[verifier::external_body]
fn quote(text: &str) -> (r: String)
    ensures
        r@ == json_quoted(text@),
{
    serde_json::Value::from(text).to_string()
}

/// What a button of a sent keyboard does: hand back data, or open a web page.
#[derive(Debug, PartialEq)]
pub enum Press {
    Data(String),
    WebApp(String),
}

/// What a [`Press`] holds.
#[verifier::ext_equal]
pub enum PressModel {
    Data(Seq<char>),
    WebApp(Seq<char>),
}

impl View for Press {
    type V = PressModel;

    open spec fn view(&self) -> PressModel {
        match *self {
            Press::Data(x) => PressModel::Data(x@),
            Press::WebApp(x) => PressModel::WebApp(x@),
        }
    }
}

impl Clone for Press {
    fn clone(&self) -> (r: Self)
        ensures
            r@ == self@,
    {
        match self {
            Press::Data(x) => Press::Data(x.clone()),
            Press::WebApp(x) => Press::WebApp(x.clone()),
        }
    }
}

/// A button of a sent keyboard.
#[derive(Debug)]
pub struct Key {
    pub label: String,
    pub press: Press,
}

/// What a [`Key`] holds.
#[verifier::ext_equal]
pub struct KeyModel {
    pub label: Seq<char>,
    pub press: PressModel,
}

impl View for Key {
    type V = KeyModel;

    open spec fn view(&self) -> KeyModel {
        KeyModel {
            label: self.label@,
            press: self.press@,
        }
    }
}

impl Key {
    /// What a list of [`Key`] holds.
    pub open spec fn models(list: Seq<Key>) -> Seq<KeyModel> {
        list.map_values(|x: Key| x@)
    }
}

/// The keys of a keyboard.
pub open spec fn keys_view(rows: Seq<Vec<Key>>) -> Seq<Seq<KeyModel>> {
    rows.map_values(|row: Vec<Key>| Key::models(row@))
}

/// A button as JSON.
pub open spec fn key_json(k: KeyModel) -> Seq<char> {
    match k.press {
        PressModel::Data(data) => "{\"text\":"@ + json_quoted(k.label) + ",\"callback_data\":"@ + json_quoted(data) + "}"@,
        PressModel::WebApp(url) => "{\"text\":"@ + json_quoted(k.label) + ",\"web_app\":{\"url\":"@ + json_quoted(url) + "}}"@,
    }
}

/// A row of buttons as JSON.
pub open spec fn row_json(row: Seq<KeyModel>) -> Seq<char> {
    "["@ + crate::text::joined(row.map_values(|k: KeyModel| key_json(k)), ","@) + "]"@
}

/// A keyboard as JSON.
pub open spec fn keyboard_json(rows: Seq<Seq<KeyModel>>) -> Seq<char> {
    "{\"inline_keyboard\":["@ + crate::text::joined(rows.map_values(|row: Seq<KeyModel>| row_json(row)), ","@) + "]}"@
}

fn key_text(key: &Key) -> (r: String)
    ensures
        r@ == key_json(key@),
{
    let mut t = copy("{\"text\":");
    t.append(quote(key.label.as_str()).as_str());
    match &key.press {
        Press::Data(data) => {
            t.append(",\"callback_data\":");
            t.append(quote(data.as_str()).as_str());
            t.append("}");
        },
        Press::WebApp(url) => {
            t.append(",\"web_app\":{\"url\":");
            t.append(quote(url.as_str()).as_str());
            t.append("}}");
        },
    }
    t
}

fn row_text(row: &Vec<Key>) -> (r: String)
    ensures
        r@ == row_json(Key::models(row@)),
{
    let ghost wanted = Key::models(row@).map_values(|k: KeyModel| key_json(k));
    let mut parts: Vec<String> = Vec::new();
    let mut i: usize = 0;
    assert(crate::text::views(parts@) =~= wanted.take(0));
    while i < row.len()
        invariant
            i <= row@.len(),
            wanted == Key::models(row@).map_values(|k: KeyModel| key_json(k)),
            crate::text::views(parts@) == wanted.take(i as int),
        decreases row.len() - i,
    {
        let ghost had = crate::text::views(parts@);
        let part = key_text(&row[i]);
        assert(part@ == wanted[i as int]);
        parts.push(part);
        assert(crate::text::views(parts@) =~= had.push(wanted[i as int]));
        assert(wanted.take(i + 1) =~= wanted.take(i as int).push(wanted[i as int]));
        i += 1;
    }
    assert(wanted.take(i as int) == wanted);
    let mut t = copy("[");
    t.append(crate::text::join(&parts, ",").as_str());
    t.append("]");
    t
}

/// A keyboard under a message, as JSON.
pub fn keyboard(rows: &Vec<Vec<Key>>) -> (r: String)
    ensures
        r@ == keyboard_json(keys_view(rows@)),
{
    let ghost wanted = keys_view(rows@).map_values(|row: Seq<KeyModel>| row_json(row));
    let mut parts: Vec<String> = Vec::new();
    let mut i: usize = 0;
    assert(crate::text::views(parts@) =~= wanted.take(0));
    while i < rows.len()
        invariant
            i <= rows@.len(),
            wanted == keys_view(rows@).map_values(|row: Seq<KeyModel>| row_json(row)),
            crate::text::views(parts@) == wanted.take(i as int),
        decreases rows.len() - i,
    {
        let ghost had = crate::text::views(parts@);
        let part = row_text(&rows[i]);
        assert(part@ == wanted[i as int]);
        parts.push(part);
        assert(crate::text::views(parts@) =~= had.push(wanted[i as int]));
        assert(wanted.take(i + 1) =~= wanted.take(i as int).push(wanted[i as int]));
        i += 1;
    }
    assert(wanted.take(i as int) == wanted);
    let mut t = copy("{\"inline_keyboard\":[");
    t.append(crate::text::join(&parts, ",").as_str());
    t.append("]}");
    t
}

/// Pairs of a label and data as buttons.
pub open spec fn data_keys(rows: Seq<Vec<(String, String)>>) -> Seq<Seq<KeyModel>> {
    rows.map_values(
        |row: Vec<(String, String)>|
            row@.map_values(|p: (String, String)| KeyModel { label: p.0@, press: PressModel::Data(p.1@) }),
    )
}

/// A keyboard of buttons that each hand back data, as JSON.
pub fn inline_keyboard(rows: Vec<Vec<(String, String)>>) -> (r: String)
    ensures
        r@ == keyboard_json(data_keys(rows@)),
{
    let ghost wanted = data_keys(rows@);
    let mut out: Vec<Vec<Key>> = Vec::new();
    let mut i: usize = 0;
    assert(keys_view(out@) =~= wanted.take(0));
    while i < rows.len()
        invariant
            i <= rows@.len(),
            wanted == data_keys(rows@),
            keys_view(out@) == wanted.take(i as int),
        decreases rows.len() - i,
    {
        let mut row: Vec<Key> = Vec::new();
        let mut k: usize = 0;
        assert(Key::models(row@) =~= wanted[i as int].take(0));
        while k < rows[i].len()
            invariant
                i < rows@.len(),
                wanted == data_keys(rows@),
                k <= rows@[i as int]@.len(),
                Key::models(row@) == wanted[i as int].take(k as int),
            decreases rows@[i as int]@.len() - k,
        {
            let ghost had = Key::models(row@);
            let key = Key { label: rows[i][k].0.clone(), press: Press::Data(rows[i][k].1.clone()) };
            assert(key@ == wanted[i as int][k as int]);
            row.push(key);
            assert(Key::models(row@) =~= had.push(wanted[i as int][k as int]));
            assert(wanted[i as int].take(k + 1) =~= wanted[i as int].take(k as int).push(wanted[i as int][k as int]));
            k += 1;
        }
        assert(wanted[i as int].take(k as int) =~= wanted[i as int]);
        let ghost had = keys_view(out@);
        out.push(row);
        assert(keys_view(out@) =~= had.push(wanted[i as int]));
        assert(wanted.take(i + 1) =~= wanted.take(i as int).push(wanted[i as int]));
        i += 1;
    }
    assert(wanted.take(i as int) == wanted);
    keyboard(&out)
}

/// The keyboard that asks for the position, as JSON.
pub open spec fn location_keyboard_of() -> Seq<char> {
    "{\"keyboard\":[[{\"text\":\"📍 发送我的位置\",\"request_location\":true}]],\"resize_keyboard\":true,\"one_time_keyboard\":true}"@
}

/// The keyboard that asks for the position, as JSON.
pub fn location_keyboard() -> (r: String)
    ensures
        r@ == location_keyboard_of(),
{
    copy(
        "{\"keyboard\":[[{\"text\":\"📍 发送我的位置\",\"request_location\":true}]],\"resize_keyboard\":true,\"one_time_keyboard\":true}",
    )
}

/// What takes a keyboard away again, as JSON.
pub fn remove_keyboard() -> (r: String)
    ensures
        r@ == "{\"remove_keyboard\":true}"@,
{
    copy("{\"remove_keyboard\":true}")
}

/// A keyboard has every key of every row, with its label and with what a press sends.
pub proof fn law_keyboard_has_every_key(rows: Seq<Seq<KeyModel>>, i: int, j: int)
    requires
        0 <= i < rows.len(),
        0 <= j < rows[i].len(),
    ensures
        ({
            let text = keyboard_json(rows);
            let key = rows[i][j];
            match key.press {
                PressModel::Data(data) => has(
                    text,
                    "{\"text\":"@ + json_quoted(key.label) + ",\"callback_data\":"@ + json_quoted(data) + "}"@,
                ),
                PressModel::WebApp(url) => has(
                    text,
                    "{\"text\":"@ + json_quoted(key.label) + ",\"web_app\":{\"url\":"@ + json_quoted(url) + "}}"@,
                ),
            }
        }),
{
    broadcast use group_has;

    let row = rows[i];
    let keys = row.map_values(|k: KeyModel| key_json(k));
    let lines = rows.map_values(|r: Seq<KeyModel>| row_json(r));
    lemma_joined_has(keys, ","@, j);
    lemma_joined_has(lines, ","@, i);
    assert(keys[j] == key_json(row[j]));
    assert(lines[i] == row_json(row));
    let one = crate::text::joined(keys, ","@);
    let all = crate::text::joined(lines, ","@);
    assert(has("["@ + one + "]"@, one));
    lemma_has_through(row_json(row), one, key_json(row[j]));
    lemma_has_through(all, row_json(row), key_json(row[j]));
    assert(has("{\"inline_keyboard\":["@ + all + "]}"@, all));
    lemma_has_through(keyboard_json(rows), all, key_json(row[j]));
}

/// A text that is too long begins as it did and says that it was cut.
pub proof fn law_cut_text_begins_as_it_did(text: Seq<char>)
    ensures
        text.len() > 3800 ==> clamped_text(text).take(3800) == text.take(3800) && has(clamped_text(text), "（内容过长已截断）"@),
        text.len() <= 3800 ==> clamped_text(text) == text,
{
    broadcast use group_has;

    if text.len() > 3800 {
        reveal_strlit("\n…（内容过长已截断）");
        reveal_strlit("（内容过长已截断）");
        assert(clamped_text(text).take(3800) =~= text.take(3800));
        assert("\n…（内容过长已截断）"@ =~= seq!['\n', '…'] + "（内容过长已截断）"@);
        assert(has(seq!['\n', '…'] + "（内容过长已截断）"@, "（内容过长已截断）"@));
    }
}

/// A reply of Telegram is an answer exactly where it says so and brings a result; else it is an error with its number
/// and its words, and with the time after which to try again where one is given.
pub proof fn law_reply_is_answer_or_error(
    ok: bool,
    has_result: bool,
    error_code: Option<i64>,
    description: Option<Seq<char>>,
    retry_after: Option<u64>,
)
    ensures
        ({
            let e = envelope_error(ok, has_result, error_code, description, retry_after);
            &&& e is None <==> ok && has_result
            &&& !ok && error_code is Some && description is Some ==> e == Some(
                TgErrorModel::Api { code: error_code->0, description: description->0, retry_after: retry_after },
            )
        }),
{
}

/// Requests go to the host that is set, without slashes at its end, or to that of Telegram; they carry the token.
pub proof fn law_requests_go_to_the_host(host: Seq<char>, token: Seq<char>)
    requires
        !is_blank(host),
        host.last() != '/',
    ensures
        api_base_of(Some(host), token) == host + "/bot"@ + token,
        api_base_of(None, token) == "https://api.telegram.org"@ + "/bot"@ + token,
{
    reveal_strlit("https://api.telegram.org");
}

} // verus!
