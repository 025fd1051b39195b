//! Signing in: the signed data of a Mini App, sessions and the password of the console.
//!
//! Nothing that a client says about who it is counts, only the signature that Telegram has put under
//! it: `secret = HMAC(key = "WebAppData", message = bot token)` and
//! `hash = HMAC(key = secret, message = the sorted "key=value" lines)`.
use crate::crypto::{
    constant_time_eq, decode_hex, derived_key, hex, hex_bytes, hex_digit, hex_text, hmac, hmac_sha256, law_hex_reads_back,
    pbkdf2, percent_decode, query_text, random_bytes, tag_matches,
};
use crate::seqs::{first_where, lemma_filter_has, lemma_filter_next, lemma_first_where};
use crate::sort::{arranged, key_of_text, key_views, lemma_arranged, lex_lt, order_of, stable_order, text_key};
use crate::store::now_secs;
use crate::text::{chars_of, copy, dec, dec_int, decimal, decimal_int, find_char, first_of, has, is_digit, join, joined, lemma_first_of,
    lemma_joined_has, lemma_read_of_dec, lemma_value_of_dec, opt_view, parse_nat, pieces, read_nat, same, split, text_of, trim, trimmed, views,
};
use vstd::prelude::*;
use vstd::utf8::encode_utf8;

verus! {

/// How long signed data is taken: a day.
pub const MAX_AUTH_AGE_SECS: u64 = 86_400;

/// How long a session lasts: twelve hours.
pub const SESSION_TTL_SECS: u64 = 43_200;

/// How long a session of the console lasts: eight hours.
pub const ADMIN_SESSION_TTL_SECS: u64 = 28_800;

/// How often the password is hashed.
pub const PBKDF2_ITERATIONS: u32 = 200_000;

/// Why somebody was not let in.
#[derive(Debug, PartialEq, Eq)]
pub enum AuthError {
    Malformed(&'static str),
    BadSignature,
    Expired,
}

/// What an [`AuthError`] says.
#[verifier::ext_equal]
pub enum AuthErrorModel {
    Malformed(Seq<char>),
    BadSignature,
    Expired,
}

impl View for AuthError {
    type V = AuthErrorModel;

    open spec fn view(&self) -> AuthErrorModel {
        match self {
            AuthError::Malformed(what) => AuthErrorModel::Malformed(what@),
            AuthError::BadSignature => AuthErrorModel::BadSignature,
            AuthError::Expired => AuthErrorModel::Expired,
        }
    }
}

/// The message for an error.
pub open spec fn auth_message(e: AuthErrorModel) -> Seq<char> {
    match e {
        AuthErrorModel::Malformed(what) => "登录数据格式不正确："@ + what,
        AuthErrorModel::BadSignature => "登录数据签名校验失败"@,
        AuthErrorModel::Expired => "登录数据已过期，请重新打开小程序"@,
    }
}

impl AuthError {
    /// The message for the error.
    pub fn message(&self) -> (r: String)
        ensures
            r@ == auth_message(self@),
    {
        match self {
            AuthError::Malformed(what) => {
                let mut r = copy("登录数据格式不正确：");
                r.append(what);
                r
            },
            AuthError::BadSignature => copy("登录数据签名校验失败"),
            AuthError::Expired => copy("登录数据已过期，请重新打开小程序"),
        }
    }
}

/// A user of Telegram.
#[derive(Debug, PartialEq, Eq)]
pub struct TelegramUser {
    pub id: i64,
    pub name: String,
    pub username: Option<String>,
}

/// What a [`TelegramUser`] holds.
#[verifier::ext_equal]
pub struct TelegramUserModel {
    pub id: i64,
    pub name: Seq<char>,
    pub username: Option<Seq<char>>,
}

impl View for TelegramUser {
    type V = TelegramUserModel;

    open spec fn view(&self) -> TelegramUserModel {
        TelegramUserModel {
            id: self.id,
            name: self.name@,
            username: opt_view(self.username),
        }
    }
}

impl Clone for TelegramUser {
    fn clone(&self) -> (r: Self)
        ensures
            r@ == self@,
    {
        let r = TelegramUser {
            id: self.id,
            name: self.name.clone(),
            username: self.username.clone(),
        };
        r
    }
}

/// A member of a JSON object, as far as it is a whole number or a text.
#[derive(Debug)]
pub struct JsonMember {
    pub key: String,
    pub number: Option<i64>,
    pub text: Option<String>,
}

/// What a [`JsonMember`] holds.
#[verifier::ext_equal]
pub struct JsonMemberModel {
    pub key: Seq<char>,
    pub number: Option<i64>,
    pub text: Option<Seq<char>>,
}

impl View for JsonMember {
    type V = JsonMemberModel;

    open spec fn view(&self) -> JsonMemberModel {
        JsonMemberModel {
            key: self.key@,
            number: self.number,
            text: opt_view(self.text),
        }
    }
}

impl JsonMember {
    /// What a list of [`JsonMember`] holds.
    pub open spec fn models(list: Seq<JsonMember>) -> Seq<JsonMemberModel> {
        list.map_values(|x: JsonMember| x@)
    }
}

/// The members of a JSON object, or nothing where the text is no JSON: of each its key, its value as a
/// whole number in 64 bits and its value as a text. Any other value has no members.
pub uninterp spec fn json_members(text: Seq<char>) -> Option<Seq<(Seq<char>, Option<i64>, Option<Seq<char>>)>>;

/// A list of members as plain values.
pub open spec fn plain_members(list: Seq<JsonMember>) -> Seq<(Seq<char>, Option<i64>, Option<Seq<char>>)> {
    list.map_values(|m: JsonMember| (m.key@, m.number, opt_view(m.text)))
}

/// `serde_json::from_str` into a `serde_json::Value`, and the members of the object it gives with
/// `as_i64` and `as_str` of each: what they are is given the name `json_members`.
#[verifier::external_body]
fn parse_members(text: &str) -> (r: Option<Vec<JsonMember>>)
    ensures
        match r {
            Some(list) => json_members(text@) == Some(plain_members(list@)),
            None => json_members(text@) is None,
        },
{
    match serde_json::from_str::<serde_json::Value>(text) {
        Ok(serde_json::Value::Object(map)) => Some(map.iter().map(|(key, value)| JsonMember {
            key: key.clone(),
            number: value.as_i64(),
            text: value.as_str().map(|text| text.to_string()),
        }).collect()),
        Ok(_) => Some(Vec::new()),
        Err(_) => None,
    }
}

// ─── the fields of signed data ───

/// A field of a query string.
#[derive(Debug)]
pub struct Field {
    pub key: String,
    pub value: String,
}

/// What a [`Field`] holds.
#[verifier::ext_equal]
pub struct FieldModel {
    pub key: Seq<char>,
    pub value: Seq<char>,
}

impl View for Field {
    type V = FieldModel;

    open spec fn view(&self) -> FieldModel {
        FieldModel {
            key: self.key@,
            value: self.value@,
        }
    }
}

impl Field {
    /// What a list of [`Field`] holds.
    pub open spec fn models(list: Seq<Field>) -> Seq<FieldModel> {
        list.map_values(|x: Field| x@)
    }
}

impl Clone for Field {
    fn clone(&self) -> (r: Self)
        ensures
            r@ == self@,
    {
        let r = Field {
            key: self.key.clone(),
            value: self.value.clone(),
        };
        r
    }
}

/// The parts of a query string, empty ones left out.
pub open spec fn chunks_of(init_data: Seq<char>) -> Seq<Seq<char>> {
    pieces(init_data, '&').filter(|c: Seq<char>| c.len() > 0)
}

/// A part that has no `=`.
pub open spec fn bare(chunk: Seq<char>) -> bool {
    first_of(chunk, '=') >= chunk.len()
}

/// The field that a part stands for.
pub open spec fn field_of(chunk: Seq<char>) -> FieldModel {
    FieldModel {
        key: query_text(chunk.take(first_of(chunk, '='))),
        value: query_text(chunk.skip(first_of(chunk, '=') + 1)),
    }
}

/// The fields of a query string.
pub open spec fn fields_of(chunks: Seq<Seq<char>>) -> Seq<FieldModel> {
    chunks.map_values(|c: Seq<char>| field_of(c))
}

/// The value of the last field of that name.
pub open spec fn last_value(fields: Seq<FieldModel>, key: Seq<char>) -> Option<Seq<char>>
    decreases fields.len(),
{
    if fields.len() == 0 {
        None
    } else if fields.last().key == key {
        Some(fields.last().value)
    } else {
        last_value(fields.drop_last(), key)
    }
}

/// The value of the first field of that name.
pub open spec fn first_value(fields: Seq<FieldModel>, key: Seq<char>) -> Option<Seq<char>> {
    let i = first_where(fields, |f: FieldModel| f.key == key);
    if i < fields.len() {
        Some(fields[i].value)
    } else {
        None
    }
}

/// A field that the signature covers.
pub open spec fn is_covered(f: FieldModel) -> bool {
    f.key != "hash"@ && f.key != "signature"@
}

/// The fields that the signature covers.
pub open spec fn covered(fields: Seq<FieldModel>) -> Seq<FieldModel> {
    fields.filter(|f: FieldModel| is_covered(f))
}

/// A field as a line.
pub open spec fn field_line(f: FieldModel) -> Seq<char> {
    f.key + "="@ + f.value
}

/// The fields sorted by name.
pub open spec fn by_key(fields: Seq<FieldModel>) -> Seq<FieldModel> {
    arranged(fields, stable_order(fields.map_values(|f: FieldModel| text_key(f.key))))
}

/// The text that is signed: a line for each field, sorted by name.
pub open spec fn check_text(fields: Seq<FieldModel>) -> Seq<char> {
    joined(by_key(fields).map_values(|f: FieldModel| field_line(f)), "\n"@)
}

/// The signature that the holder of the bot token puts under a text.
pub open spec fn signature(bot_token: Seq<char>, text: Seq<char>) -> Seq<u8> {
    hmac_sha256(hmac_sha256(encode_utf8("WebAppData"@), encode_utf8(bot_token)), encode_utf8(text))
}

/// `a - b`, or 0 where that is negative.
pub open spec fn since(a: u64, b: u64) -> nat {
    if a >= b {
        (a - b) as nat
    } else {
        0
    }
}

/// The position of the member of that name.
pub open spec fn member_index(members: Seq<(Seq<char>, Option<i64>, Option<Seq<char>>)>, key: Seq<char>) -> int {
    first_where(members, |m: (Seq<char>, Option<i64>, Option<Seq<char>>)| m.0 == key)
}

/// The member of that name as a number.
pub open spec fn number_of(members: Seq<(Seq<char>, Option<i64>, Option<Seq<char>>)>, key: Seq<char>) -> Option<i64> {
    let i = member_index(members, key);
    if i < members.len() {
        members[i].1
    } else {
        None
    }
}

/// The member of that name as a text.
pub open spec fn text_member(members: Seq<(Seq<char>, Option<i64>, Option<Seq<char>>)>, key: Seq<char>) -> Option<Seq<char>> {
    let i = member_index(members, key);
    if i < members.len() {
        members[i].2
    } else {
        None
    }
}

/// A text, or the empty one.
pub open spec fn or_empty(s: Option<Seq<char>>) -> Seq<char> {
    match s {
        Some(s) => s,
        None => Seq::empty(),
    }
}

/// The name that is shown for a user.
pub open spec fn shown_name(id: i64, first: Seq<char>, last: Seq<char>) -> Seq<char> {
    let name = trim(first + " "@ + last);
    if name.len() == 0 {
        "用户 "@ + dec_int(id as int)
    } else {
        name
    }
}

/// The user that the members of a JSON object describe.
pub open spec fn user_in(
    members: Seq<(Seq<char>, Option<i64>, Option<Seq<char>>)>,
) -> Result<TelegramUserModel, AuthErrorModel> {
    match number_of(members, "id"@) {
        None => Err(AuthErrorModel::Malformed("user.id 缺失"@)),
        Some(id) => Ok(
            TelegramUserModel {
                id: id,
                name: shown_name(
                    id,
                    or_empty(text_member(members, "first_name"@)),
                    or_empty(text_member(members, "last_name"@)),
                ),
                username: match text_member(members, "username"@) {
                    Some(name) => if name.len() > 0 {
                        Some(name)
                    } else {
                        None
                    },
                    None => None,
                },
            },
        ),
    }
}

/// What comes of the fields that the signature covers, once the signature is known to be good.
pub open spec fn user_field(fields: Seq<FieldModel>) -> Result<TelegramUserModel, AuthErrorModel> {
    match first_value(by_key(fields), "user"@) {
        None => Err(AuthErrorModel::Malformed("缺少 user"@)),
        Some(text) => match json_members(text) {
            None => Err(AuthErrorModel::Malformed("user 不是合法 JSON"@)),
            Some(members) => user_in(members),
        },
    }
}

/// The text that the fields say was signed and the signature they carry, where they are whole and not
/// too old.
pub open spec fn signed_part(fields: Seq<FieldModel>, now: u64) -> Result<(Seq<char>, Seq<u8>), AuthErrorModel> {
    let rest = covered(fields);
    match last_value(fields, "hash"@) {
        None => Err(AuthErrorModel::Malformed("缺少 hash"@)),
        Some(hash) => match first_value(rest, "auth_date"@) {
            None => Err(AuthErrorModel::Malformed("缺少 auth_date"@)),
            Some(date) => match read_nat(date, u64::MAX as nat) {
                None => Err(AuthErrorModel::Malformed("缺少 auth_date"@)),
                Some(date) => if since(now, date as u64) > MAX_AUTH_AGE_SECS {
                    Err(AuthErrorModel::Expired)
                } else {
                    match hex_bytes(hash) {
                        None => Err(AuthErrorModel::Malformed("hash 不是十六进制"@)),
                        Some(tag) => Ok((check_text(rest), tag)),
                    }
                },
            },
        },
    }
}

/// What comes of the fields of signed data.
pub open spec fn login_by(fields: Seq<FieldModel>, bot_token: Seq<char>, now: u64) -> Result<
    TelegramUserModel,
    AuthErrorModel,
> {
    match signed_part(fields, now) {
        Err(e) => Err(e),
        Ok((text, tag)) => if tag != signature(bot_token, text) {
            Err(AuthErrorModel::BadSignature)
        } else {
            user_field(covered(fields))
        },
    }
}

/// What comes of signed data.
pub open spec fn login(init_data: Seq<char>, bot_token: Seq<char>, now: u64) -> Result<
    TelegramUserModel,
    AuthErrorModel,
> {
    let chunks = chunks_of(init_data);
    if exists|i: int| 0 <= i < chunks.len() && bare(#[trigger] chunks[i]) {
        Err(AuthErrorModel::Malformed("参数缺少 = 分隔"@))
    } else {
        login_by(fields_of(chunks), bot_token, now)
    }
}

/// What a result says.
pub open spec fn login_view(r: Result<TelegramUser, AuthError>) -> Result<TelegramUserModel, AuthErrorModel> {
    match r {
        Ok(user) => Ok(user@),
        Err(e) => Err(e@),
    }
}

/// Whoever is let in comes with a signature of the holder of the bot token that is at most a day old
/// and covers every field but the signatures themselves.
pub proof fn law_only_signed_data_is_taken(init_data: Seq<char>, bot_token: Seq<char>, now: u64)
    requires
        login(init_data, bot_token, now) is Ok,
    ensures
        ({
            let fields = fields_of(chunks_of(init_data));
            let hash = last_value(fields, "hash"@);
            let date = first_value(covered(fields), "auth_date"@);
            &&& hash is Some
            &&& hex_bytes(hash->0) == Some(signature(bot_token, check_text(covered(fields))))
            &&& date is Some
            &&& read_nat(date->0, u64::MAX as nat) is Some
            &&& since(now, read_nat(date->0, u64::MAX as nat)->0 as u64) <= MAX_AUTH_AGE_SECS
        }),
{
}

/// Data whose parts all have a `=`, that is at most a day old, carries the signature of the holder
/// of the bot token in hexadecimal and names a user by JSON with an id is taken.
pub proof fn law_signed_data_is_taken(init_data: Seq<char>, bot_token: Seq<char>, now: u64)
    requires
        forall|i: int| 0 <= i < chunks_of(init_data).len() ==> !bare(#[trigger] chunks_of(init_data)[i]),
        ({
            let fields = fields_of(chunks_of(init_data));
            let rest = covered(fields);
            &&& last_value(fields, "hash"@) == Some(hex_text(signature(bot_token, check_text(rest))))
            &&& first_value(rest, "auth_date"@) is Some
            &&& read_nat(first_value(rest, "auth_date"@)->0, u64::MAX as nat) is Some
            &&& since(now, read_nat(first_value(rest, "auth_date"@)->0, u64::MAX as nat)->0 as u64)
                <= MAX_AUTH_AGE_SECS
            &&& first_value(by_key(rest), "user"@) is Some
            &&& json_members(first_value(by_key(rest), "user"@)->0) is Some
            &&& number_of(json_members(first_value(by_key(rest), "user"@)->0)->0, "id"@) is Some
        }),
    ensures
        login(init_data, bot_token, now) is Ok,
{
    let rest = covered(fields_of(chunks_of(init_data)));
    law_hex_reads_back(signature(bot_token, check_text(rest)));
}

fn member_position(members: &Vec<JsonMember>, key: &str) -> (r: usize)
    ensures
        r == member_index(plain_members(members@), key@),
        r <= members@.len(),
{
    let ghost list = plain_members(members@);
    let ghost p = |m: (Seq<char>, Option<i64>, Option<Seq<char>>)| m.0 == key@;
    let mut i: usize = 0;
    while i < members.len()
        invariant
            i <= members@.len(),
            list == plain_members(members@),
            p == (|m: (Seq<char>, Option<i64>, Option<Seq<char>>)| m.0 == key@),
            forall|j: int| 0 <= j < i ==> !p(#[trigger] list[j]),
        decreases members.len() - i,
    {
        assert(list[i as int].0 == members@[i as int].key@);
        if same(members[i].key.as_str(), key) {
            proof {
                lemma_first_where(list, p, i as int);
            }
            return i;
        }
        i += 1;
    }
    proof {
        lemma_first_where(list, p, i as int);
    }
    i
}

fn member_text(members: &Vec<JsonMember>, key: &str) -> (r: Option<String>)
    ensures
        opt_view(r) == text_member(plain_members(members@), key@),
{
    let i: usize = member_position(members, key);
    if i < members.len() {
        members[i].text.clone()
    } else {
        None
    }
}

/// The user that the members of a JSON object describe.
pub fn user_from_members(members: &Vec<JsonMember>) -> (r: Result<TelegramUser, AuthError>)
    ensures
        login_view(r) == user_in(plain_members(members@)),
{
    let i: usize = member_position(members, "id");
    let id: i64 = if i < members.len() {
        match members[i].number {
            Some(id) => id,
            None => {
                return Err(AuthError::Malformed("user.id 缺失"));
            },
        }
    } else {
        return Err(AuthError::Malformed("user.id 缺失"));
    };
    let first = match member_text(members, "first_name") {
        Some(s) => s,
        None => String::new(),
    };
    let last = match member_text(members, "last_name") {
        Some(s) => s,
        None => String::new(),
    };
    let mut whole = copy(first.as_str());
    whole.append(" ");
    whole.append(last.as_str());
    let trimmed_name = trimmed(whole.as_str());
    let name = if trimmed_name.as_str().is_empty() {
        let mut n = copy("用户 ");
        n.append(decimal_int(id).as_str());
        n
    } else {
        trimmed_name
    };
    let username = match member_text(members, "username") {
        Some(s) => if s.as_str().is_empty() {
            None
        } else {
            Some(s)
        },
        None => None,
    };
    Ok(TelegramUser { id: id, name: name, username: username })
}

fn field_position(fields: &Vec<Field>, key: &str) -> (r: usize)
    ensures
        r == first_where(Field::models(fields@), |f: FieldModel| f.key == key@),
        r <= fields@.len(),
{
    let ghost list = Field::models(fields@);
    let ghost p = |f: FieldModel| f.key == key@;
    let mut i: usize = 0;
    while i < fields.len()
        invariant
            i <= fields@.len(),
            list == Field::models(fields@),
            p == (|f: FieldModel| f.key == key@),
            forall|j: int| 0 <= j < i ==> !p(#[trigger] list[j]),
        decreases fields.len() - i,
    {
        assert(list[i as int] == fields@[i as int]@);
        if same(fields[i].key.as_str(), key) {
            proof {
                lemma_first_where(list, p, i as int);
            }
            return i;
        }
        i += 1;
    }
    proof {
        lemma_first_where(list, p, i as int);
    }
    i
}

fn last_field(fields: &Vec<Field>, key: &str) -> (r: Option<String>)
    ensures
        opt_view(r) == last_value(Field::models(fields@), key@),
{
    let ghost list = Field::models(fields@);
    let mut i: usize = fields.len();
    assert(list.take(i as int) == list);
    while i > 0
        invariant
            i <= fields@.len(),
            list == Field::models(fields@),
            last_value(list.take(i as int), key@) == last_value(list, key@),
        decreases i,
    {
        assert(list.take(i as int).drop_last() == list.take(i - 1));
        assert(list.take(i as int).last() == fields@[i - 1]@);
        if same(fields[i - 1].key.as_str(), key) {
            return Some(fields[i - 1].value.clone());
        }
        i -= 1;
    }
    None
}

fn split_fields(init_data: &str) -> (r: Result<Vec<Field>, AuthError>)
    ensures
        ({
            let chunks = chunks_of(init_data@);
            match r {
                Ok(fields) => (forall|i: int| 0 <= i < chunks.len() ==> !bare(#[trigger] chunks[i])) && Field::models(
                    fields@,
                ) == fields_of(chunks),
                Err(e) => (exists|i: int| 0 <= i < chunks.len() && bare(#[trigger] chunks[i])) && e@
                    == AuthErrorModel::Malformed("参数缺少 = 分隔"@),
            }
        }),
{
    let parts = split(init_data, '&');
    let ghost all = pieces(init_data@, '&');
    let ghost p = |c: Seq<char>| c.len() > 0;
    let mut chunks: Vec<String> = Vec::new();
    let mut i: usize = 0;
    assert(views(chunks@) =~= all.take(0).filter(p)) by {
        reveal(Seq::filter);
    }
    while i < parts.len()
        invariant
            i <= parts@.len(),
            all == views(parts@),
            p == (|c: Seq<char>| c.len() > 0),
            views(chunks@) == all.take(i as int).filter(p),
        decreases parts.len() - i,
    {
        proof {
            lemma_filter_next(all, p, i as int);
        }
        assert(all[i as int] == parts@[i as int]@);
        if !parts[i].as_str().is_empty() {
            let ghost had = views(chunks@);
            chunks.push(parts[i].clone());
            assert(views(chunks@) =~= had.push(all[i as int]));
        }
        i += 1;
    }
    assert(all.take(i as int) == all);
    let ghost list = chunks_of(init_data@);
    assert(list == views(chunks@));
    let mut fields: Vec<Field> = Vec::new();
    let mut k: usize = 0;
    assert(Field::models(fields@) =~= fields_of(list.take(0)));
    while k < chunks.len()
        invariant
            k <= chunks@.len(),
            list == views(chunks@),
            list == chunks_of(init_data@),
            forall|j: int| 0 <= j < k ==> !bare(#[trigger] list[j]),
            Field::models(fields@) == fields_of(list.take(k as int)),
        decreases chunks.len() - k,
    {
        let chars = chars_of(chunks[k].as_str());
        let at: usize = find_char(&chars, '=');
        assert(list[k as int] == chars@);
        if at >= chars.len() {
            assert(bare(list[k as int]));
            return Err(AuthError::Malformed("参数缺少 = 分隔"));
        }
        let key = text_of(&chars, 0, at);
        let value = text_of(&chars, at + 1, chars.len());
        assert(key@ == chars@.take(at as int));
        assert(value@ == chars@.skip(at + 1));
        let field = Field { key: percent_decode(key.as_str()), value: percent_decode(value.as_str()) };
        let ghost had = Field::models(fields@);
        fields.push(field);
        assert(Field::models(fields@) =~= had.push(field_of(list[k as int])));
        assert(fields_of(list.take(k + 1)) =~= fields_of(list.take(k as int)).push(field_of(list[k as int])));
        k += 1;
    }
    assert(list.take(k as int) == list);
    Ok(fields)
}

fn covered_fields(fields: &Vec<Field>) -> (r: Vec<Field>)
    ensures
        Field::models(r@) == covered(Field::models(fields@)),
{
    let ghost all = Field::models(fields@);
    let ghost p = |f: FieldModel| is_covered(f);
    let mut r: Vec<Field> = Vec::new();
    let mut i: usize = 0;
    assert(Field::models(r@) =~= all.take(0).filter(p)) by {
        reveal(Seq::filter);
    }
    while i < fields.len()
        invariant
            i <= fields@.len(),
            all == Field::models(fields@),
            p == (|f: FieldModel| is_covered(f)),
            Field::models(r@) == all.take(i as int).filter(p),
        decreases fields.len() - i,
    {
        proof {
            lemma_filter_next(all, p, i as int);
        }
        assert(all[i as int] == fields@[i as int]@);
        let key = fields[i].key.as_str();
        if !same(key, "hash") && !same(key, "signature") {
            let ghost had = Field::models(r@);
            r.push(fields[i].clone());
            assert(Field::models(r@) =~= had.push(all[i as int]));
        }
        i += 1;
    }
    assert(all.take(i as int) == all);
    r
}

fn sorted_fields(fields: &Vec<Field>) -> (r: Vec<Field>)
    ensures
        Field::models(r@) == by_key(Field::models(fields@)),
{
    let ghost all = Field::models(fields@);
    let ghost wanted = all.map_values(|f: FieldModel| text_key(f.key));
    let mut keys: Vec<Vec<u64>> = Vec::new();
    let mut i: usize = 0;
    assert(key_views(keys@) =~= wanted.take(0));
    while i < fields.len()
        invariant
            i <= fields@.len(),
            all == Field::models(fields@),
            wanted == all.map_values(|f: FieldModel| text_key(f.key)),
            key_views(keys@) == wanted.take(i as int),
        decreases fields.len() - i,
    {
        let ghost had = key_views(keys@);
        let key = key_of_text(fields[i].key.as_str());
        assert(all[i as int] == fields@[i as int]@);
        keys.push(key);
        assert(key_views(keys@) =~= had.push(wanted[i as int]));
        assert(wanted.take(i + 1) =~= wanted.take(i as int).push(wanted[i as int]));
        i += 1;
    }
    assert(wanted.take(i as int) == wanted);
    let order = order_of(&keys);
    let ghost target = arranged(all, order@);
    let mut r: Vec<Field> = Vec::new();
    let mut k: usize = 0;
    assert(Field::models(r@) =~= target.take(0));
    while k < order.len()
        invariant
            k <= order@.len(),
            all == Field::models(fields@),
            target == arranged(all, order@),
            order@.len() == fields@.len(),
            forall|j: int| 0 <= j < order@.len() ==> (#[trigger] order@[j]) < fields@.len(),
            Field::models(r@) == target.take(k as int),
        decreases order.len() - k,
    {
        assert(order@[k as int] < fields@.len());
        let ghost had = Field::models(r@);
        let f = fields[order[k]].clone();
        assert(f@ == target[k as int]);
        r.push(f);
        assert(Field::models(r@) =~= had.push(target[k as int]));
        assert(target.take(k + 1) =~= target.take(k as int).push(target[k as int]));
        k += 1;
    }
    assert(target.take(k as int) == target);
    r
}

fn check_string(fields: &Vec<Field>) -> (r: String)
    ensures
        r@ == joined(Field::models(fields@).map_values(|f: FieldModel| field_line(f)), "\n"@),
{
    let ghost wanted = Field::models(fields@).map_values(|f: FieldModel| field_line(f));
    let mut lines: Vec<String> = Vec::new();
    let mut i: usize = 0;
    assert(views(lines@) =~= wanted.take(0));
    while i < fields.len()
        invariant
            i <= fields@.len(),
            wanted == Field::models(fields@).map_values(|f: FieldModel| field_line(f)),
            views(lines@) == wanted.take(i as int),
        decreases fields.len() - i,
    {
        let ghost had = views(lines@);
        let mut line = copy(fields[i].key.as_str());
        line.append("=");
        line.append(fields[i].value.as_str());
        assert(line@ == wanted[i as int]);
        lines.push(line);
        assert(views(lines@) =~= had.push(wanted[i as int]));
        assert(wanted.take(i + 1) =~= wanted.take(i as int).push(wanted[i as int]));
        i += 1;
    }
    assert(wanted.take(i as int) == wanted);
    join(&lines, "\n")
}

/// The text that the fields say was signed and the signature they carry, or what is wrong with them at
/// the time `now`.
pub fn signed_text(fields: &Vec<Field>, now: u64) -> (r: Result<(String, Vec<u8>), AuthError>)
    ensures
        (match r {
            Ok((text, tag)) => Ok((text@, tag@)),
            Err(e) => Err(e@),
        }) == signed_part(Field::models(fields@), now),
{
    let pairs = covered_fields(fields);
    let hash = match last_field(fields, "hash") {
        Some(hash) => hash,
        None => {
            return Err(AuthError::Malformed("缺少 hash"));
        },
    };
    let at: usize = field_position(&pairs, "auth_date");
    if at >= pairs.len() {
        return Err(AuthError::Malformed("缺少 auth_date"));
    }
    assert(Field::models(pairs@)[at as int] == pairs@[at as int]@);
    let auth_date: u64 = match parse_nat(pairs[at].value.as_str(), u64::MAX) {
        Some(date) => date,
        None => {
            return Err(AuthError::Malformed("缺少 auth_date"));
        },
    };
    if now.saturating_sub(auth_date) > MAX_AUTH_AGE_SECS {
        return Err(AuthError::Expired);
    }
    let text = check_string(&sorted_fields(&pairs));
    match decode_hex(hash.as_str()) {
        Some(tag) => Ok((text, tag)),
        None => Err(AuthError::Malformed("hash 不是十六进制")),
    }
}

/// The field that describes the user.
pub fn user_text(fields: &Vec<Field>) -> (r: Result<String, AuthError>)
    ensures
        match (r, first_value(by_key(covered(Field::models(fields@))), "user"@)) {
            (Ok(text), Some(value)) => text@ == value,
            (Err(e), None) => e@ == AuthErrorModel::Malformed("缺少 user"@),
            _ => false,
        },
{
    let sorted = sorted_fields(&covered_fields(fields));
    let at: usize = field_position(&sorted, "user");
    if at >= sorted.len() {
        return Err(AuthError::Malformed("缺少 user"));
    }
    assert(Field::models(sorted@)[at as int] == sorted@[at as int]@);
    Ok(sorted[at].value.clone())
}

/// Checks the signed data of a Mini App at the time `now` and gives the user in it.
pub fn verify_init_data(init_data: &str, bot_token: &str, now: u64) -> (r: Result<TelegramUser, AuthError>)
    ensures
        login_view(r) == login(init_data@, bot_token@, now),
{
    let fields = match split_fields(init_data) {
        Ok(fields) => fields,
        Err(e) => {
            return Err(e);
        },
    };
    let (text, tag) = match signed_text(&fields, now) {
        Ok(parts) => parts,
        Err(e) => {
            return Err(e);
        },
    };
    let secret = hmac("WebAppData".as_bytes(), bot_token.as_bytes());
    if !tag_matches(secret.as_slice(), text.as_str().as_bytes(), tag.as_slice()) {
        return Err(AuthError::BadSignature);
    }
    let user = match user_text(&fields) {
        Ok(user) => user,
        Err(e) => {
            return Err(e);
        },
    };
    match parse_members(user.as_str()) {
        None => Err(AuthError::Malformed("user 不是合法 JSON")),
        Some(members) => user_from_members(&members),
    }
}

// ─── tables by token ───

/// Values by token.
pub struct TokenMap<V> {
    entries: Vec<(String, V)>,
}

spec fn tokens_of<V>(entries: Seq<(String, V)>) -> Seq<Seq<char>> {
    entries.map_values(|e: (String, V)| e.0@)
}

spec fn token_at<V>(entries: Seq<(String, V)>, token: Seq<char>) -> int {
    first_where(entries, under::<V>(token))
}

spec fn under<V>(token: Seq<char>) -> spec_fn((String, V)) -> bool {
    |e: (String, V)| e.0@ == token
}

/// `entry` stands in `before` from `from` on and its value passes.
spec fn stems<V>(before: Seq<(String, V)>, entry: (String, V), from: int, p: spec_fn(V) -> bool) -> bool {
    exists|i: int| from <= i < before.len() && #[trigger] before[i] == entry && p(before[i].1)
}

spec fn table_of<V>(entries: Seq<(String, V)>) -> Map<Seq<char>, V> {
    Map::new(
        |token: Seq<char>| tokens_of(entries).contains(token),
        |token: Seq<char>| entries[token_at(entries, token)].1,
    )
}

impl<V> View for TokenMap<V> {
    type V = Map<Seq<char>, V>;

    closed spec fn view(&self) -> Map<Seq<char>, V> {
        table_of(self.entries@)
    }
}

proof fn lemma_token_at<V>(entries: Seq<(String, V)>, i: int)
    requires
        tokens_of(entries).no_duplicates(),
        0 <= i < entries.len(),
    ensures
        token_at(entries, entries[i].0@) == i,
        table_of(entries).dom().contains(entries[i].0@),
        table_of(entries)[entries[i].0@] == entries[i].1,
{
    let token = entries[i].0@;
    let p = under::<V>(token);
    assert(tokens_of(entries)[i] == token);
    assert forall|j: int| 0 <= j < i implies !p(#[trigger] entries[j]) by {
        assert(tokens_of(entries)[j] == entries[j].0@);
    }
    lemma_first_where(entries, p, i);
    assert(tokens_of(entries).contains(token));
}

proof fn lemma_has_token<V>(entries: Seq<(String, V)>, token: Seq<char>) -> (i: int)
    requires
        table_of(entries).dom().contains(token),
    ensures
        0 <= i < entries.len(),
        entries[i].0@ == token,
{
    assert(tokens_of(entries).contains(token));
    let i = choose|i: int| 0 <= i < tokens_of(entries).len() && tokens_of(entries)[i] == token;
    i
}

/// A test on the values of a table.
trait Test<V> {
    spec fn passes(&self, value: V) -> bool;

    fn test(&self, value: &V) -> (r: bool)
        ensures
            r == self.passes(*value),
    ;
}

/// The part of a table whose values pass a test.
pub open spec fn kept<V>(table: Map<Seq<char>, V>, p: spec_fn(V) -> bool) -> Map<Seq<char>, V> {
    table.restrict(Set::new(|token: Seq<char>| table.dom().contains(token) && p(table[token])))
}

impl<V> TokenMap<V> {
    #[verifier::type_invariant]
    spec fn distinct(self) -> bool {
        tokens_of(self.entries@).no_duplicates()
    }

    /// An empty table.
    pub fn new() -> (r: TokenMap<V>)
        ensures
            r@ == Map::<Seq<char>, V>::empty(),
    {
        let r = TokenMap { entries: Vec::new() };
        assert(table_of(r.entries@) =~= Map::<Seq<char>, V>::empty());
        r
    }

    fn position(&self, token: &str) -> (r: usize)
        ensures
            r == token_at(self.entries@, token@),
            r <= self.entries@.len(),
            r < self.entries@.len() <==> self@.dom().contains(token@),
            r < self.entries@.len() ==> self.entries@[r as int].0@ == token@ && self@[token@] == self.entries@[r as int].1,
    {
        let ghost all = self.entries@;
        let ghost p = under::<V>(token@);
        proof {
            use_type_invariant(self);
        }
        let mut i: usize = 0;
        while i < self.entries.len()
            invariant
                i <= all.len(),
                all == self.entries@,
                tokens_of(all).no_duplicates(),
                p == under::<V>(token@),
                forall|j: int| 0 <= j < i ==> !p(#[trigger] all[j]),
            decreases self.entries.len() - i,
        {
            if same(self.entries[i].0.as_str(), token) {
                proof {
                    lemma_first_where(all, p, i as int);
                    lemma_token_at(all, i as int);
                }
                return i;
            }
            i += 1;
        }
        proof {
            lemma_first_where(all, p, i as int);
            if self@.dom().contains(token@) {
                let k = lemma_has_token(all, token@);
                assert(p(all[k]));
            }
        }
        i
    }

    /// The value of a token.
    pub fn get(&self, token: &str) -> (r: Option<&V>)
        ensures
            match r {
                Some(value) => self@.dom().contains(token@) && *value == self@[token@],
                None => !self@.dom().contains(token@),
            },
    {
        let i: usize = self.position(token);
        if i < self.entries.len() {
            Some(&self.entries[i].1)
        } else {
            None
        }
    }

    /// Forgets a token.
    pub fn remove(&mut self, token: &str)
        ensures
            final(self)@ == old(self)@.remove(token@),
    {
        let i: usize = self.position(token);
        proof {
            use_type_invariant(&*self);
        }
        let ghost before = self.entries@;
        if i < self.entries.len() {
            let mut entries: Vec<(String, V)> = Vec::new();
            std::mem::swap(&mut entries, &mut self.entries);
            let _ = entries.remove(i);
            proof {
                lemma_without(before, i as int);
            }
            self.entries = entries;
        } else {
            assert(table_of(before) =~= table_of(before).remove(token@));
        }
    }

    /// Gives a token a value.
    pub fn insert(&mut self, token: String, value: V)
        ensures
            final(self)@ == old(self)@.insert(token@, value),
    {
        let ghost start = self@;
        self.remove(token.as_str());
        proof {
            use_type_invariant(&*self);
            if self@.dom().contains(token@) {
                assert(start.remove(token@).dom().contains(token@));
            }
            lemma_with(self.entries@, token, value);
        }
        let mut entries: Vec<(String, V)> = Vec::new();
        std::mem::swap(&mut entries, &mut self.entries);
        entries.push((token, value));
        self.entries = entries;
        assert(self@ =~= start.insert(token@, value));
    }

    /// How many tokens there are.
    pub fn len(&self) -> (r: usize)
        ensures
            r == self@.dom().len(),
            self@.dom().finite(),
    {
        proof {
            use_type_invariant(self);
            tokens_of(self.entries@).unique_seq_to_set();
            assert(self@.dom() =~= tokens_of(self.entries@).to_set());
        }
        self.entries.len()
    }

    /// Forgets every token.
    pub fn clear(&mut self)
        ensures
            final(self)@ == Map::<Seq<char>, V>::empty(),
    {
        self.entries = Vec::new();
        assert(table_of(self.entries@) =~= Map::<Seq<char>, V>::empty());
    }

    /// Keeps the tokens whose value passes the test.
    fn retain<T: Test<V>>(&mut self, keep: &T)
        ensures
            final(self)@ == kept(old(self)@, |v: V| keep.passes(v)),
    {
        let ghost p = |v: V| keep.passes(v);
        proof {
            use_type_invariant(&*self);
        }
        let ghost before = self.entries@;
        let mut rest: Vec<(String, V)> = Vec::new();
        std::mem::swap(&mut rest, &mut self.entries);
        let mut chosen: Vec<(String, V)> = Vec::new();
        while rest.len() > 0
            invariant
                rest@.len() <= before.len(),
                rest@ == before.take(rest@.len() as int),
                tokens_of(before).no_duplicates(),
                tokens_of(chosen@).no_duplicates(),
                p == (|v: V| keep.passes(v)),
                forall|j: int|
                    0 <= j < chosen@.len() ==> stems(before, #[trigger] chosen@[j], rest@.len() as int, p),
                forall|i: int|
                    rest@.len() <= i < before.len() && p((#[trigger] before[i]).1) ==> chosen@.contains(before[i]),
            decreases rest.len(),
        {
            let ghost n = rest@.len() as int;
            let ghost had = chosen@;
            match rest.pop() {
                Some(entry) => {
                    assert(entry == before[n - 1]);
                    if keep.test(&entry.1) {
                        chosen.push(entry);
                        proof {
                            lemma_chosen_distinct(before, had, entry, n - 1, p);
                            assert forall|i: int|
                                n - 1 <= i < before.len() && p((#[trigger] before[i]).1) implies chosen@.contains(
                                before[i],
                            ) by {
                                if i == n - 1 {
                                    assert(chosen@[had.len() as int] == before[i]);
                                } else {
                                    let k = choose|k: int| 0 <= k < had.len() && had[k] == before[i];
                                    assert(chosen@[k] == before[i]);
                                }
                            }
                        }
                    }
                },
                None => {},
            }
            assert forall|j: int| 0 <= j < chosen@.len() implies stems(before, #[trigger] chosen@[j], n - 1, p) by {
                if j < had.len() {
                    assert(chosen@[j] == had[j]);
                    assert(stems(before, had[j], n, p));
                    let i = choose|i: int| n <= i < before.len() && #[trigger] before[i] == had[j] && p(before[i].1);
                    assert(before[i] == chosen@[j]);
                } else {
                    assert(before[n - 1] == chosen@[j]);
                }
            }
        }
        proof {
            lemma_retained(before, chosen@, p);
        }
        self.entries = chosen;
    }
}

proof fn lemma_chosen_distinct<V>(before: Seq<(String, V)>, had: Seq<(String, V)>, entry: (String, V), at: int, p: spec_fn(V) -> bool)
    requires
        tokens_of(before).no_duplicates(),
        tokens_of(had).no_duplicates(),
        0 <= at < before.len(),
        entry == before[at],
        forall|j: int| 0 <= j < had.len() ==> stems(before, #[trigger] had[j], at + 1, p),
    ensures
        tokens_of(had.push(entry)).no_duplicates(),
{
    let after = had.push(entry);
    assert forall|a: int, b: int|
        0 <= a < tokens_of(after).len() && 0 <= b < tokens_of(after).len() && a != b implies tokens_of(after)[a]
        != tokens_of(after)[b] by {
        let lo = if a < b { a } else { b };
        let hi = if a < b { b } else { a };
        assert(after[lo] == had[lo]);
        if hi < had.len() {
            assert(tokens_of(had)[lo] != tokens_of(had)[hi]);
            assert(tokens_of(had)[lo] == tokens_of(after)[lo]);
            assert(tokens_of(had)[hi] == tokens_of(after)[hi]);
        } else {
            assert(stems(before, had[lo], at + 1, p));
            let i = choose|i: int| at + 1 <= i < before.len() && #[trigger] before[i] == had[lo] && p(before[i].1);
            assert(tokens_of(before)[i] != tokens_of(before)[at]);
        }
    }
}

proof fn lemma_retained<V>(before: Seq<(String, V)>, after: Seq<(String, V)>, p: spec_fn(V) -> bool)
    requires
        tokens_of(before).no_duplicates(),
        tokens_of(after).no_duplicates(),
        forall|j: int| 0 <= j < after.len() ==> stems(before, #[trigger] after[j], 0, p),
        forall|i: int| 0 <= i < before.len() && p((#[trigger] before[i]).1) ==> after.contains(before[i]),
    ensures
        table_of(after) == kept(table_of(before), p),
{
    let old_table = table_of(before);
    let new_table = table_of(after);
    let want = kept(old_table, p);
    assert forall|t: Seq<char>| #[trigger] new_table.dom().contains(t) implies want.dom().contains(t) && new_table[t]
        == want[t] by {
        let j = lemma_has_token(after, t);
        lemma_token_at(after, j);
        assert(stems(before, after[j], 0, p));
        let i = choose|i: int| 0 <= i < before.len() && #[trigger] before[i] == after[j] && p(before[i].1);
        lemma_token_at(before, i);
    }
    assert forall|t: Seq<char>| #[trigger] want.dom().contains(t) implies new_table.dom().contains(t) by {
        let i = lemma_has_token(before, t);
        lemma_token_at(before, i);
        assert(after.contains(before[i]));
        let j = choose|j: int| 0 <= j < after.len() && after[j] == before[i];
        lemma_token_at(after, j);
    }
    assert(new_table.dom() =~= want.dom());
    assert(new_table =~= want);
}

proof fn lemma_without<V>(before: Seq<(String, V)>, at: int)
    requires
        tokens_of(before).no_duplicates(),
        0 <= at < before.len(),
    ensures
        tokens_of(before.remove(at)).no_duplicates(),
        table_of(before.remove(at)) == table_of(before).remove(before[at].0@),
{
    let after = before.remove(at);
    let token = before[at].0@;
    assert forall|a: int, b: int|
        0 <= a < tokens_of(after).len() && 0 <= b < tokens_of(after).len() && a != b implies tokens_of(after)[a]
        != tokens_of(after)[b] by {
        let x = if a < at { a } else { a + 1 };
        let y = if b < at { b } else { b + 1 };
        assert(tokens_of(after)[a] == tokens_of(before)[x]);
        assert(tokens_of(after)[b] == tokens_of(before)[y]);
    }
    let want = table_of(before).remove(token);
    assert forall|t: Seq<char>| #[trigger] table_of(after).dom().contains(t) implies want.dom().contains(t)
        && table_of(after)[t] == want[t] by {
        let j = lemma_has_token(after, t);
        lemma_token_at(after, j);
        let x = if j < at { j } else { j + 1 };
        assert(after[j] == before[x]);
        lemma_token_at(before, x);
        assert(tokens_of(before)[x] != tokens_of(before)[at]);
    }
    assert forall|t: Seq<char>| #[trigger] want.dom().contains(t) implies table_of(after).dom().contains(t) by {
        let i = lemma_has_token(before, t);
        let x = if i < at { i } else { i - 1 };
        assert(after[x] == before[i]);
        lemma_token_at(after, x);
    }
    assert(table_of(after).dom() =~= want.dom());
    assert(table_of(after) =~= want);
}

proof fn lemma_with<V>(before: Seq<(String, V)>, token: String, value: V)
    requires
        tokens_of(before).no_duplicates(),
        !table_of(before).dom().contains(token@),
    ensures
        tokens_of(before.push((token, value))).no_duplicates(),
        table_of(before.push((token, value))) == table_of(before).insert(token@, value),
{
    let after = before.push((token, value));
    assert forall|a: int, b: int|
        0 <= a < tokens_of(after).len() && 0 <= b < tokens_of(after).len() && a != b implies tokens_of(after)[a]
        != tokens_of(after)[b] by {
        let lo = if a < b { a } else { b };
        let hi = if a < b { b } else { a };
        assert(tokens_of(after)[lo] == tokens_of(before)[lo]);
        if hi < before.len() {
            assert(tokens_of(after)[hi] == tokens_of(before)[hi]);
        } else {
            assert(tokens_of(before).contains(tokens_of(before)[lo]));
        }
    }
    let want = table_of(before).insert(token@, value);
    assert forall|t: Seq<char>| #[trigger] table_of(after).dom().contains(t) implies want.dom().contains(t)
        && table_of(after)[t] == want[t] by {
        let j = lemma_has_token(after, t);
        lemma_token_at(after, j);
        if j < before.len() {
            assert(after[j] == before[j]);
            lemma_token_at(before, j);
        }
    }
    assert forall|t: Seq<char>| #[trigger] want.dom().contains(t) implies table_of(after).dom().contains(t) by {
        if t == token@ {
            lemma_token_at(after, before.len() as int);
        } else {
            let i = lemma_has_token(before, t);
            assert(after[i] == before[i]);
            lemma_token_at(after, i);
        }
    }
    assert(table_of(after).dom() =~= want.dom());
    assert(table_of(after) =~= want);
}

// ─── sessions ───

/// Somebody who is signed in.
#[derive(Debug)]
pub struct Session {
    pub user: TelegramUser,
    pub issued_at: u64,
}

/// What a [`Session`] holds.
#[verifier::ext_equal]
pub struct SessionModel {
    pub user: TelegramUserModel,
    pub issued_at: u64,
}

impl View for Session {
    type V = SessionModel;

    open spec fn view(&self) -> SessionModel {
        SessionModel {
            user: self.user@,
            issued_at: self.issued_at,
        }
    }
}

impl Clone for Session {
    fn clone(&self) -> (r: Self)
        ensures
            r@ == self@,
    {
        let r = Session {
            user: self.user.clone(),
            issued_at: self.issued_at,
        };
        r
    }
}

/// Whether a session from `issued_at` is still good at `now`.
pub open spec fn fresh(issued_at: u64, now: u64, ttl: u64) -> bool {
    since(now, issued_at) < ttl
}

/// Passes what is still good at `now`.
struct Fresh {
    now: u64,
    ttl: u64,
}

impl Test<Session> for Fresh {
    spec fn passes(&self, value: Session) -> bool {
        fresh(value@.issued_at, self.now, self.ttl)
    }

    fn test(&self, value: &Session) -> (r: bool) {
        self.now.saturating_sub(value.issued_at) < self.ttl
    }
}

impl Test<u64> for Fresh {
    spec fn passes(&self, value: u64) -> bool {
        fresh(value, self.now, self.ttl)
    }

    fn test(&self, value: &u64) -> (r: bool) {
        self.now.saturating_sub(*value) < self.ttl
    }
}

/// Passes the sessions of other users.
struct OtherUser {
    user_id: i64,
}

impl Test<Session> for OtherUser {
    spec fn passes(&self, value: Session) -> bool {
        value@.user.id != self.user_id
    }

    fn test(&self, value: &Session) -> (r: bool) {
        value.user.id != self.user_id
    }
}

/// The sessions by token.
pub struct Sessions {
    inner: TokenMap<Session>,
}

impl View for Sessions {
    type V = Map<Seq<char>, SessionModel>;

    closed spec fn view(&self) -> Map<Seq<char>, SessionModel> {
        self.inner@.map_values(|s: Session| s@)
    }
}

/// The sessions that are still good at `now`.
pub open spec fn live(sessions: Map<Seq<char>, SessionModel>, now: u64) -> Map<Seq<char>, SessionModel> {
    kept(sessions, |s: SessionModel| fresh(s.issued_at, now, SESSION_TTL_SECS))
}

/// The sessions after a new one was issued: those that have run out are gone.
pub open spec fn issued(
    sessions: Map<Seq<char>, SessionModel>,
    token: Seq<char>,
    user: TelegramUserModel,
    now: u64,
) -> Map<Seq<char>, SessionModel> {
    live(sessions, now).insert(token, SessionModel { user: user, issued_at: now })
}

/// The session of a token at `now`.
pub open spec fn session_of(sessions: Map<Seq<char>, SessionModel>, token: Seq<char>, now: u64) -> Option<SessionModel> {
    if sessions.dom().contains(token) && fresh(sessions[token].issued_at, now, SESSION_TTL_SECS) {
        Some(sessions[token])
    } else {
        None
    }
}

/// The sessions after a token was looked up: one that has run out is gone.
pub open spec fn after_lookup(sessions: Map<Seq<char>, SessionModel>, token: Seq<char>, now: u64) -> Map<
    Seq<char>,
    SessionModel,
> {
    if sessions.dom().contains(token) && !fresh(sessions[token].issued_at, now, SESSION_TTL_SECS) {
        sessions.remove(token)
    } else {
        sessions
    }
}

/// The view of an optional session.
pub open spec fn opt_session(s: Option<Session>) -> Option<SessionModel> {
    match s {
        Some(s) => Some(s@),
        None => None,
    }
}

/// What a token looks like: 64 hexadecimal digits.
pub open spec fn is_token(token: Seq<char>) -> bool {
    exists|bytes: Seq<u8>| bytes.len() == 32 && token == #[trigger] hex_text(bytes)
}

/// The token that random bytes make: all of them in hexadecimal. There is one exactly where there are
/// bytes.
pub fn token_from(bytes: Option<Vec<u8>>) -> (r: Option<String>)
    ensures
        opt_view(r) == match bytes {
            Some(bytes) => Some(hex_text(bytes@)),
            None => None,
        },
{
    match bytes {
        Some(bytes) => Some(hex(bytes.as_slice())),
        None => None,
    }
}

/// A new token for a session, or nothing where the system has no random bytes to give.
fn random_token() -> (r: Option<String>)
    ensures
        r is Some ==> is_token(r->0@) && r->0@.len() == 64,
{
    let bytes = random_bytes(32);
    proof {
        if bytes is Some {
            law_hex_reads_back(bytes->0@);
        }
    }
    token_from(bytes)
}

impl Sessions {
    /// No sessions.
    pub fn new() -> (r: Sessions)
        ensures
            r@ == Map::<Seq<char>, SessionModel>::empty(),
    {
        let r = Sessions { inner: TokenMap::new() };
        assert(r@ =~= Map::<Seq<char>, SessionModel>::empty());
        r
    }

    /// Signs a user in under `token` at the time `now`.
    pub fn issue_at(&mut self, token: String, user: TelegramUser, now: u64) -> (r: Session)
        ensures
            r@ == (SessionModel { user: user@, issued_at: now }),
            final(self)@ == issued(old(self)@, token@, user@, now),
    {
        let ghost before = self.inner@;
        let session = Session { user: user, issued_at: now };
        self.inner.retain(&Fresh { now: now, ttl: SESSION_TTL_SECS });
        let ghost mid = self.inner@;
        assert(mid.map_values(|s: Session| s@) =~= live(before.map_values(|s: Session| s@), now));
        self.inner.insert(token, session.clone());
        assert(self@ =~= mid.map_values(|s: Session| s@).insert(token@, session@));
        session
    }

    /// Signs a user in at the time `now` under the token that there is: the token and the session.
    /// Without a token nobody is signed in.
    pub fn issue_with(&mut self, token: Option<String>, user: TelegramUser, now: u64) -> (r: Option<(String, Session)>)
        ensures
            match (token, r) {
                (Some(token), Some((given, session))) => {
                    &&& given@ == token@
                    &&& session@ == (SessionModel { user: user@, issued_at: now })
                    &&& final(self)@ == issued(old(self)@, token@, user@, now)
                },
                (None, None) => final(self)@ == old(self)@,
                _ => false,
            },
    {
        match token {
            Some(token) => {
                let session = self.issue_at(copy(token.as_str()), user, now);
                Some((token, session))
            },
            None => None,
        }
    }

    /// Signs a user in: the token and the session, or nothing where the system has no random bytes
    /// to give.
    pub fn issue(&mut self, user: TelegramUser) -> (r: Option<(String, Session)>)
        ensures
            match r {
                Some((token, session)) => is_token(token@) && token@.len() == 64 && session@.user == user@ && final(self)@
                    == issued(old(self)@, token@, user@, session@.issued_at),
                None => final(self)@ == old(self)@,
            },
    {
        let token = random_token();
        let now: u64 = now_secs();
        self.issue_with(token, user, now)
    }

    /// The session of a token at the time `now`.
    pub fn lookup_at(&mut self, token: &str, now: u64) -> (r: Option<Session>)
        ensures
            opt_session(r) == session_of(old(self)@, token@, now),
            final(self)@ == after_lookup(old(self)@, token@, now),
    {
        let session = match self.inner.get(token) {
            Some(session) => session.clone(),
            None => {
                return None;
            },
        };
        if now.saturating_sub(session.issued_at) >= SESSION_TTL_SECS {
            let ghost before = self.inner@;
            self.inner.remove(token);
            assert(self@ =~= before.map_values(|s: Session| s@).remove(token@));
            return None;
        }
        Some(session)
    }

    /// The session of a token.
    pub fn lookup(&mut self, token: &str) -> (r: Option<Session>)
        ensures
            exists|now: u64|
                opt_session(r) == #[trigger] session_of(old(self)@, token@, now) && final(self)@ == after_lookup(
                    old(self)@,
                    token@,
                    now,
                ),
    {
        let now: u64 = now_secs();
        self.lookup_at(token, now)
    }

    /// Ends a session.
    pub fn revoke(&mut self, token: &str)
        ensures
            final(self)@ == old(self)@.remove(token@),
    {
        let ghost before = self.inner@;
        self.inner.remove(token);
        assert(self@ =~= before.map_values(|s: Session| s@).remove(token@));
    }

    /// Ends every session of a user.
    pub fn revoke_user(&mut self, user_id: i64)
        ensures
            final(self)@ == kept(old(self)@, |s: SessionModel| s.user.id != user_id),
    {
        let ghost before = self.inner@;
        self.inner.retain(&OtherUser { user_id: user_id });
        assert(self@ =~= kept(before.map_values(|s: Session| s@), |s: SessionModel| s.user.id != user_id));
    }

    /// How many sessions there are.
    pub fn active(&self) -> (r: usize)
        ensures
            r == self@.dom().len(),
    {
        assert(self@.dom() =~= self.inner@.dom());
        self.inner.len()
    }
}

/// A session can be looked up from when it was issued until it runs out, and not after.
pub proof fn law_session_lasts_its_time(
    sessions: Map<Seq<char>, SessionModel>,
    token: Seq<char>,
    user: TelegramUserModel,
    start: u64,
    now: u64,
)
    ensures
        session_of(issued(sessions, token, user, start), token, now) == if since(now, start) < SESSION_TTL_SECS {
            Some(SessionModel { user: user, issued_at: start })
        } else {
            None
        },
{
}

/// After the sessions of a user were ended, no token leads to that user.
pub proof fn law_revoked_user_has_no_session(
    sessions: Map<Seq<char>, SessionModel>,
    user_id: i64,
    token: Seq<char>,
    now: u64,
)
    ensures
        match session_of(kept(sessions, |s: SessionModel| s.user.id != user_id), token, now) {
            Some(session) => session.user.id != user_id,
            None => true,
        },
{
}

/// A session that was ended is not found again.
pub proof fn law_revoked_session_is_gone(sessions: Map<Seq<char>, SessionModel>, token: Seq<char>, now: u64)
    ensures
        session_of(sessions.remove(token), token, now) is None,
{
}

// ─── the password of the console ───

/// How a key that was derived with a salt is stored.
pub open spec fn stored_key(salt: Seq<u8>, key: Seq<u8>) -> Seq<char> {
    "pbkdf2$sha256$"@ + dec(PBKDF2_ITERATIONS as nat) + "$"@ + hex_text(salt) + "$"@ + hex_text(key)
}

/// How a password is stored.
pub open spec fn stored_password(password: Seq<char>, salt: Seq<u8>) -> Seq<char> {
    stored_key(salt, derived_key(encode_utf8(password), salt, PBKDF2_ITERATIONS as nat))
}

/// How often, with which salt and to which key a stored password was hashed.
pub open spec fn stored_parts(stored: Seq<char>) -> Option<(nat, Seq<u8>, Seq<u8>)> {
    let parts = pieces(stored, '$');
    if parts.len() >= 5 && parts[0] == "pbkdf2"@ && parts[1] == "sha256"@ {
        match (read_nat(parts[2], u32::MAX as nat), hex_bytes(parts[3]), hex_bytes(parts[4])) {
            (Some(iterations), Some(salt), Some(key)) => Some((iterations, salt, key)),
            _ => None,
        }
    } else {
        None
    }
}

/// Whether a password is the one that was stored.
pub open spec fn password_matches(password: Seq<char>, stored: Seq<char>) -> bool {
    match stored_parts(stored) {
        Some((iterations, salt, key)) => derived_key(encode_utf8(password), salt, iterations) == key,
        None => false,
    }
}

/// How a key that was derived with a salt is stored.
pub fn store_key(salt: &Vec<u8>, key: &Vec<u8>) -> (r: String)
    ensures
        r@ == stored_key(salt@, key@),
{
    let mut r = copy("pbkdf2$sha256$");
    r.append(decimal(PBKDF2_ITERATIONS as u64).as_str());
    r.append("$");
    r.append(hex(salt.as_slice()).as_str());
    r.append("$");
    r.append(hex(key.as_slice()).as_str());
    r
}

/// Reads how often, with which salt and to which key a stored password was hashed.
pub fn read_stored(stored: &str) -> (r: Option<(u32, Vec<u8>, Vec<u8>)>)
    ensures
        (match r {
            Some((iterations, salt, key)) => Some((iterations as nat, salt@, key@)),
            None => None,
        }) == stored_parts(stored@),
{
    let parts = split(stored, '$');
    let ghost all = pieces(stored@, '$');
    assert(all == views(parts@));
    if parts.len() < 5 {
        return None;
    }
    assert(all[0] == parts@[0]@ && all[1] == parts@[1]@ && all[2] == parts@[2]@ && all[3] == parts@[3]@ && all[4]
        == parts@[4]@);
    if !same(parts[0].as_str(), "pbkdf2") || !same(parts[1].as_str(), "sha256") {
        return None;
    }
    match (
        crate::text::parse_u32(parts[2].as_str()),
        decode_hex(parts[3].as_str()),
        decode_hex(parts[4].as_str()),
    ) {
        (Some(iterations), Some(salt), Some(key)) => Some((iterations, salt, key)),
        _ => None,
    }
}

/// Stores a password with a given salt.
pub fn hash_password_with(password: &str, salt: &Vec<u8>) -> (r: String)
    ensures
        r@ == stored_password(password@, salt@),
{
    let derived = pbkdf2(password.as_bytes(), salt.as_slice(), PBKDF2_ITERATIONS);
    store_key(salt, &derived)
}

/// Stores a password with the salt that was had; nothing where there is none.
pub fn hash_password_from(password: &str, salt: Option<Vec<u8>>) -> (r: Option<String>)
    ensures
        opt_view(r) == match salt {
            Some(salt) => Some(stored_password(password@, salt@)),
            None => None,
        },
{
    match salt {
        Some(salt) => Some(hash_password_with(password, &salt)),
        None => None,
    }
}

/// Stores a password with a salt of 16 random bytes; nothing where the system has none to give.
pub fn hash_password(password: &str) -> (r: Option<String>)
    ensures
        r is Some ==> exists|salt: Seq<u8>| salt.len() == 16 && r->0@ == #[trigger] stored_password(password@, salt),
{
    hash_password_from(password, random_bytes(16))
}

/// Whether a password is the one that was stored.
pub fn verify_password(password: &str, stored: &str) -> (r: bool)
    ensures
        r == password_matches(password@, stored@),
{
    match read_stored(stored) {
        Some((iterations, salt, key)) => {
            let derived = pbkdf2(password.as_bytes(), salt.as_slice(), iterations);
            constant_time_eq(derived.as_slice(), key.as_slice())
        },
        None => false,
    }
}

proof fn lemma_first_piece(a: Seq<char>, c: char, b: Seq<char>)
    requires
        forall|i: int| 0 <= i < a.len() ==> #[trigger] a[i] != c,
    ensures
        pieces(a + seq![c] + b, c) == seq![a] + pieces(b, c),
{
    let s = a + seq![c] + b;
    assert forall|j: int| 0 <= j < a.len() implies #[trigger] s[j] != c by {
        assert(s[j] == a[j]);
    }
    assert(s[a.len() as int] == c);
    lemma_first_of(s, c, a.len() as int);
    assert(s.take(a.len() as int) =~= a);
    assert(s.skip(a.len() as int + 1) =~= b);
}

proof fn lemma_only_piece(a: Seq<char>, c: char)
    requires
        forall|i: int| 0 <= i < a.len() ==> #[trigger] a[i] != c,
    ensures
        pieces(a, c) == seq![a],
{
    lemma_first_of(a, c, a.len() as int);
}

/// A password is recognized by what was stored for it, whatever the salt was.
pub proof fn law_stored_password_is_recognized(password: Seq<char>, salt: Seq<u8>)
    ensures
        password_matches(password, stored_password(password, salt)),
{
    let key = derived_key(encode_utf8(password), salt, PBKDF2_ITERATIONS as nat);
    let n = dec(PBKDF2_ITERATIONS as nat);
    let t1 = hex_text(salt);
    let t2 = hex_text(key);
    law_hex_reads_back(salt);
    law_hex_reads_back(key);
    lemma_value_of_dec(PBKDF2_ITERATIONS as nat);
    lemma_read_of_dec(PBKDF2_ITERATIONS as nat, u32::MAX as nat);
    reveal_strlit("pbkdf2$sha256$");
    reveal_strlit("pbkdf2");
    reveal_strlit("sha256");
    reveal_strlit("$");
    let stored = stored_password(password, salt);
    assert forall|i: int| 0 <= i < n.len() implies #[trigger] n[i] != '$' by {
        assert(is_digit(n[i]));
    }
    assert forall|i: int| 0 <= i < t1.len() implies #[trigger] t1[i] != '$' by {
        assert(hex_digit(t1[i]) is Some);
    }
    assert forall|i: int| 0 <= i < t2.len() implies #[trigger] t2[i] != '$' by {
        assert(hex_digit(t2[i]) is Some);
    }
    let s4 = t1 + seq!['$'] + t2;
    let s3 = n + seq!['$'] + s4;
    let s2 = "sha256"@ + seq!['$'] + s3;
    let s1 = "pbkdf2"@ + seq!['$'] + s2;
    assert(stored =~= s1);
    lemma_only_piece(t2, '$');
    lemma_first_piece(t1, '$', t2);
    lemma_first_piece(n, '$', s4);
    lemma_first_piece("sha256"@, '$', s3);
    lemma_first_piece("pbkdf2"@, '$', s2);
    let parts = pieces(stored, '$');
    assert(parts =~= seq!["pbkdf2"@, "sha256"@, n, t1, t2]);
}

// ─── sessions of the console ───

/// The sessions of the console: when each token was issued.
pub struct AdminSessions {
    inner: TokenMap<u64>,
}

impl View for AdminSessions {
    type V = Map<Seq<char>, u64>;

    closed spec fn view(&self) -> Map<Seq<char>, u64> {
        self.inner@
    }
}

/// The sessions after a new one was issued: those that have run out are gone.
pub open spec fn admin_issued(sessions: Map<Seq<char>, u64>, token: Seq<char>, now: u64) -> Map<Seq<char>, u64> {
    kept(sessions, |issued: u64| fresh(issued, now, ADMIN_SESSION_TTL_SECS)).insert(token, now)
}

/// Whether a token is good at `now`.
pub open spec fn admin_valid(sessions: Map<Seq<char>, u64>, token: Seq<char>, now: u64) -> bool {
    sessions.dom().contains(token) && fresh(sessions[token], now, ADMIN_SESSION_TTL_SECS)
}

impl AdminSessions {
    /// No sessions.
    pub fn new() -> (r: AdminSessions)
        ensures
            r@ == Map::<Seq<char>, u64>::empty(),
    {
        AdminSessions { inner: TokenMap::new() }
    }

    /// Opens a session under `token` at the time `now`.
    pub fn issue_at(&mut self, token: String, now: u64)
        ensures
            final(self)@ == admin_issued(old(self)@, token@, now),
    {
        let ghost before = self.inner@;
        self.inner.retain(&Fresh { now: now, ttl: ADMIN_SESSION_TTL_SECS });
        assert(self.inner@ =~= kept(before, |issued: u64| fresh(issued, now, ADMIN_SESSION_TTL_SECS)));
        self.inner.insert(token, now);
    }

    /// Opens a session at the time `now` under the token that there is. Without a token none is opened.
    pub fn issue_with(&mut self, token: Option<String>, now: u64) -> (r: Option<String>)
        ensures
            opt_view(r) == opt_view(token),
            final(self)@ == match token {
                Some(token) => admin_issued(old(self)@, token@, now),
                None => old(self)@,
            },
    {
        match token {
            Some(token) => {
                self.issue_at(copy(token.as_str()), now);
                Some(token)
            },
            None => None,
        }
    }

    /// Opens a session: its token, or nothing where the system has no random bytes to give.
    pub fn issue(&mut self) -> (r: Option<String>)
        ensures
            match r {
                Some(token) => is_token(token@) && token@.len() == 64 && exists|now: u64|
                    final(self)@ == #[trigger] admin_issued(old(self)@, token@, now),
                None => final(self)@ == old(self)@,
            },
    {
        let token = random_token();
        let now: u64 = now_secs();
        self.issue_with(token, now)
    }

    /// Whether a token is good at the time `now`.
    pub fn valid_at(&self, token: &str, now: u64) -> (r: bool)
        ensures
            r == admin_valid(self@, token@, now),
    {
        match self.inner.get(token) {
            Some(issued) => now.saturating_sub(*issued) < ADMIN_SESSION_TTL_SECS,
            None => false,
        }
    }

    /// Whether a token is good.
    pub fn valid(&self, token: &str) -> (r: bool)
        ensures
            exists|now: u64| r == #[trigger] admin_valid(self@, token@, now),
    {
        let now: u64 = now_secs();
        self.valid_at(token, now)
    }

    /// Ends a session.
    pub fn revoke(&mut self, token: &str)
        ensures
            final(self)@ == old(self)@.remove(token@),
    {
        self.inner.remove(token);
    }

    /// Ends every session.
    pub fn revoke_all(&mut self)
        ensures
            final(self)@ == Map::<Seq<char>, u64>::empty(),
    {
        self.inner.clear();
    }

    /// How many sessions there are.
    pub fn active(&self) -> (r: usize)
        ensures
            r == self@.dom().len(),
    {
        self.inner.len()
    }
}

/// A session of the console is good from when it was issued until it runs out, and not after.
pub proof fn law_admin_session_lasts_its_time(sessions: Map<Seq<char>, u64>, token: Seq<char>, start: u64, now: u64)
    ensures
        admin_valid(admin_issued(sessions, token, start), token, now) == (since(now, start) < ADMIN_SESSION_TTL_SECS),
        !admin_valid(sessions.remove(token), token, now),
{
}

/// A session lasts twelve hours and that of an administrator eight; data to sign in with is good for a day. A token
/// that was never issued opens nothing.
pub proof fn law_times_of_sessions(
    sessions: Map<Seq<char>, SessionModel>,
    admins: Map<Seq<char>, u64>,
    token: Seq<char>,
    user: TelegramUserModel,
    start: u64,
    now: u64,
)
    requires
        start <= now,
    ensures
        session_of(issued(sessions, token, user, start), token, now) is Some <==> now < start + 12 * 3600,
        session_of(issued(sessions, token, user, start), token, now) matches Some(s) ==> s.user == user && s.issued_at == start,
        admin_valid(admin_issued(admins, token, start), token, now) <==> now < start + 8 * 3600,
        MAX_AUTH_AGE_SECS == 24 * 3600,
        !sessions.dom().contains(token) ==> session_of(sessions, token, now) is None,
        !admins.dom().contains(token) ==> !admin_valid(admins, token, now),
{
}

/// Opening a session leaves the others as they are, but for those that have run out.
pub proof fn law_sessions_stand_side_by_side(
    sessions: Map<Seq<char>, SessionModel>,
    token: Seq<char>,
    user: TelegramUserModel,
    other: Seq<char>,
    start: u64,
    now: u64,
)
    requires
        other != token,
        start <= now,
    ensures
        session_of(issued(sessions, token, user, start), other, now) == session_of(sessions, other, now),
        session_of(sessions.remove(token), other, now) == session_of(sessions, other, now),
{
    if sessions.dom().contains(other) && session_of(sessions, other, now) is Some {
        assert(fresh(sessions[other].issued_at, start, SESSION_TTL_SECS));
    }
}

/// Signing in is refused as too late exactly where the signed data is over a day old, as soon as there is a hash and a
/// date.
pub proof fn law_old_data_is_too_late(fields: Seq<FieldModel>, bot_token: Seq<char>, now: u64, date: u64)
    requires
        last_value(fields, "hash"@) is Some,
        first_value(covered(fields), "auth_date"@) is Some,
        read_nat(first_value(covered(fields), "auth_date"@)->0, u64::MAX as nat) == Some(date as nat),
    ensures
        login_by(fields, bot_token, now) == Err::<TelegramUserModel, AuthErrorModel>(AuthErrorModel::Expired) <==> now > date + 86_400,
{
}

/// The user who signs in has the number and the names that the data holds; somebody without a name goes by the
/// number.
pub proof fn law_user_is_as_the_data_says(members: Seq<(Seq<char>, Option<i64>, Option<Seq<char>>)>, id: i64)
    requires
        number_of(members, "id"@) == Some(id),
    ensures
        ({
            let first = or_empty(text_member(members, "first_name"@));
            let last = or_empty(text_member(members, "last_name"@));
            &&& user_in(members) is Ok && user_in(members)->Ok_0.id == id
            &&& trim(first + " "@ + last).len() > 0 ==> user_in(members)->Ok_0.name == trim(first + " "@ + last)
            &&& trim(first + " "@ + last).len() == 0 ==> user_in(members)->Ok_0.name == "用户 "@ + dec_int(id as int)
            &&& user_in(members)->Ok_0.username is Some <==> or_empty(text_member(members, "username"@)).len() > 0
            &&& user_in(members)->Ok_0.username matches Some(name) ==> text_member(members, "username"@) == Some(name)
        }),
{
}

/// The signature covers every field but itself, ordered by name.
pub proof fn law_signature_covers_the_fields(fields: Seq<FieldModel>, k: int)
    requires
        0 <= k < fields.len(),
    ensures
        covered(fields).contains(fields[k]) <==> fields[k].key != "hash"@ && fields[k].key != "signature"@,
{
    let p = |f: FieldModel| is_covered(f);
    lemma_filter_has(fields, p, fields[k]);
    assert(fields.contains(fields[k]));
}

/// A field is taken apart at its first equals sign.
pub proof fn law_field_is_taken_apart(key: Seq<char>, value: Seq<char>)
    requires
        forall|i: int| 0 <= i < key.len() ==> #[trigger] key[i] != '=',
    ensures
        !bare(key + seq!['='] + value),
        field_of(key + seq!['='] + value).key == query_text(key),
        field_of(key + seq!['='] + value).value == query_text(value),
        bare(key),
{
    let chunk = key + seq!['='] + value;
    let n = key.len() as int;
    assert forall|j: int| 0 <= j < n implies #[trigger] chunk[j] != '=' by {
        assert(chunk[j] == key[j]);
    }
    assert(chunk[n] == '=');
    lemma_first_of(chunk, '=', n);
    lemma_first_of(key, '=', n);
    assert(chunk.take(n) =~= key);
    assert(chunk.skip(n + 1) =~= value);
}

/// The text that is signed holds every field on a line of its own, in the order of their names.
pub proof fn law_signed_text_holds_every_field(fields: Seq<FieldModel>, k: int)
    requires
        0 <= k < fields.len() <= usize::MAX,
    ensures
        has(check_text(fields), fields[k].key + "="@ + fields[k].value),
        forall|i: int, j: int|
            0 <= i < j < by_key(fields).len() ==> !lex_lt(text_key((#[trigger] by_key(fields)[j]).key), text_key((#[trigger] by_key(fields)[i]).key)),
{
    let keys = fields.map_values(|f: FieldModel| text_key(f.key));
    let order = stable_order(keys);
    let sorted = by_key(fields);
    lemma_arranged(fields, keys);
    assert(order.contains(k as usize));
    let at = choose|at: int| 0 <= at < order.len() && order[at] == k as usize;
    let lines = sorted.map_values(|f: FieldModel| field_line(f));
    assert(lines[at] == field_line(fields[k]));
    lemma_joined_has(lines, "\n"@, at);
    assert forall|i: int, j: int| 0 <= i < j < sorted.len() implies !lex_lt(
        text_key((#[trigger] sorted[j]).key),
        text_key((#[trigger] sorted[i]).key),
    ) by {
        let (a, b) = (order[i] as int, order[j] as int);
        assert(sorted[i] == fields[a] && sorted[j] == fields[b]);
        assert(keys[a] == text_key(fields[a].key) && keys[b] == text_key(fields[b].key));
    }
}

} // verus!
