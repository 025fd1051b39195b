//! What the HTTP interfaces have in common: refusals, and who is signed in.
use crate::auth::{
    after_lookup, auth_message, login as login_result, session_of, verify_init_data, Session, SessionModel, Sessions, TelegramUser, TelegramUserModel,
};
use crate::store::{seen, user_of, with_user, Store, StoreModel, UserStateModel};
use crate::text::{after_prefix, begins, copy, opt_view, trim, trimmed};
use vstd::prelude::*;

verus! {

/// A refusal: its HTTP status, and what is said.
#[derive(Debug)]
pub struct ApiError {
    pub status: u16,
    pub message: String,
}

/// What a [`ApiError`] holds.
#[verifier::ext_equal]
pub struct ApiErrorModel {
    pub status: u16,
    pub message: Seq<char>,
}

impl View for ApiError {
    type V = ApiErrorModel;

    open spec fn view(&self) -> ApiErrorModel {
        ApiErrorModel {
            status: self.status,
            message: self.message@,
        }
    }
}

/// A refusal.
pub open spec fn refusal(status: u16, message: Seq<char>) -> ApiErrorModel {
    ApiErrorModel { status: status, message: message }
}

/// A refusal.
pub fn refuse(status: u16, message: &str) -> (r: ApiError)
    ensures
        r@ == refusal(status, message@),
{
    ApiError { status: status, message: copy(message) }
}

/// What is asked for that is not there.
pub fn no_such_interface() -> (r: ApiError)
    ensures
        r@ == refusal(404, "接口不存在"@),
{
    refuse(404, "接口不存在")
}

/// A result without anything in it, as far as refusals go.
pub open spec fn check_view(r: Result<(), ApiError>) -> Result<(), ApiErrorModel> {
    match r {
        Ok(_) => Ok(()),
        Err(e) => Err(e@),
    }
}

/// The token that a request carries.
pub open spec fn bearer_of(header: Option<Seq<char>>) -> Option<Seq<char>> {
    match header {
        Some(value) => if begins(value, "Bearer "@) {
            Some(trim(value.skip("Bearer "@.len() as int)))
        } else {
            None
        },
        None => None,
    }
}

/// The token that a request carries in its header for the authorization.
pub fn bearer(header: &Option<String>) -> (r: Option<String>)
    ensures
        opt_view(r) == bearer_of(opt_view(*header)),
{
    match header {
        Some(value) => match after_prefix(value.as_str(), "Bearer ") {
            Some(rest) => Some(trimmed(rest.as_str())),
            None => None,
        },
        None => None,
    }
}

// ─── who is signed in ───

/// The session behind a request: a token has to be there and to be good, and the user must not be
/// banned.
pub open spec fn session_check(sessions: Map<Seq<char>, SessionModel>, store: StoreModel, header: Option<Seq<char>>, now: u64) -> Result<
    SessionModel,
    ApiErrorModel,
> {
    match bearer_of(header) {
        Some(token) => if token.len() == 0 {
            Err(refusal(401, "缺少会话令牌，请重新登录"@))
        } else {
            match session_of(sessions, token, now) {
                Some(session) => if user_of(store.users, session.user.id).banned {
                    Err(refusal(403, "账号已被停用"@))
                } else {
                    Ok(session)
                },
                None => Err(refusal(401, "会话已过期，请重新登录"@)),
            }
        },
        None => Err(refusal(401, "缺少会话令牌，请重新登录"@)),
    }
}

/// The sessions after that.
pub open spec fn sessions_after(sessions: Map<Seq<char>, SessionModel>, header: Option<Seq<char>>, now: u64) -> Map<Seq<char>, SessionModel> {
    match bearer_of(header) {
        Some(token) => if token.len() == 0 {
            sessions
        } else {
            after_lookup(sessions, token, now)
        },
        None => sessions,
    }
}

/// What a result says of a session.
pub open spec fn session_view(r: Result<Session, ApiError>) -> Result<SessionModel, ApiErrorModel> {
    match r {
        Ok(session) => Ok(session@),
        Err(e) => Err(e@),
    }
}

/// The session behind a request that comes in at the time `now`.
pub fn session(sessions: &mut Sessions, store: &Store, header: &Option<String>, now: u64) -> (r: Result<Session, ApiError>)
    ensures
        session_view(r) == session_check(old(sessions)@, store@, opt_view(*header), now),
        final(sessions)@ == sessions_after(old(sessions)@, opt_view(*header), now),
{
    let token = match bearer(header) {
        Some(token) => token,
        None => {
            return Err(refuse(401, "缺少会话令牌，请重新登录"));
        },
    };
    if token.as_str().is_empty() {
        return Err(refuse(401, "缺少会话令牌，请重新登录"));
    }
    match sessions.lookup_at(token.as_str(), now) {
        Some(session) => if store.get(session.user.id).banned {
            Err(refuse(403, "账号已被停用"))
        } else {
            Ok(session)
        },
        None => Err(refuse(401, "会话已过期，请重新登录")),
    }
}

/// Who signs in: the data must be signed by Telegram, and the user must be welcome.
pub open spec fn login_check(store: StoreModel, init_data: Seq<char>, bot_token: Seq<char>, now: u64) -> Result<
    TelegramUserModel,
    ApiErrorModel,
> {
    match login_result(init_data, bot_token, now) {
        Ok(user) => if user_of(store.users, user.id).banned {
            Err(refusal(403, "账号已被停用"@))
        } else if !store.settings.allow_new_users && !store.users.dom().contains(user.id) {
            Err(refusal(403, "机器人当前不接受新用户"@))
        } else {
            Ok(user)
        },
        Err(e) => Err(refusal(401, auth_message(e))),
    }
}

/// What is kept of a user who has signed in.
pub open spec fn after_login(store: StoreModel, user: TelegramUserModel, now: u64) -> StoreModel {
    with_user(
        store,
        user.id,
        UserStateModel { display_name: user.name, username: user.username, ..seen(user_of(store.users, user.id), now) },
    )
}

/// Signs a user in by the data that Telegram hands to the panel: whom a session is to be opened for.
pub fn login(store: &mut Store, init_data: &str, bot_token: &str, now: u64) -> (r: Result<TelegramUser, ApiError>)
    ensures
        (match r {
            Ok(user) => Ok(user@),
            Err(e) => Err(e@),
        }) == login_check(old(store)@, init_data@, bot_token@, now),
        final(store)@ == match r {
            Ok(user) => after_login(old(store)@, user@, now),
            Err(_) => old(store)@,
        },
{
    let user = match verify_init_data(init_data, bot_token, now) {
        Ok(user) => user,
        Err(e) => {
            return Err(ApiError { status: 401, message: e.message() });
        },
    };
    if store.get(user.id).banned {
        return Err(refuse(403, "账号已被停用"));
    }
    if !store.settings().allow_new_users && !store.has_user(user.id) {
        return Err(refuse(403, "机器人当前不接受新用户"));
    }
    let mut state = store.touched(user.id, now);
    state.display_name = user.name.clone();
    state.username = user.username.clone();
    store.put(user.id, state);
    Ok(user)
}

/// Nobody who is banned gets in, neither by signing in nor by a session that was opened before.
pub proof fn law_banned_user_has_no_access(
    sessions: Map<Seq<char>, SessionModel>,
    store: StoreModel,
    header: Option<Seq<char>>,
    init_data: Seq<char>,
    bot_token: Seq<char>,
    now: u64,
)
    ensures
        session_check(sessions, store, header, now) matches Ok(session) ==> !user_of(store.users, session.user.id).banned,
        login_check(store, init_data, bot_token, now) matches Ok(user) ==> !user_of(store.users, user.id).banned,
{
}

/// A token is what follows the word for it in the header, without the white space around it.
pub proof fn law_token_follows_the_word(token: Seq<char>, header: Seq<char>)
    ensures
        bearer_of(Some("Bearer "@ + token)) == Some(trim(token)),
        bearer_of(None) is None,
        bearer_of(Some(header)) is Some ==> header.len() >= 7 && header.take(7) == "Bearer "@,
{
    reveal_strlit("Bearer ");
    let whole = "Bearer "@ + token;
    assert(whole.subrange(0, 7) =~= "Bearer "@);
    assert(whole.skip(7) =~= token);
    if begins(header, "Bearer "@) {
        assert(header.take(7) =~= header.subrange(0, 7));
    }
}

/// Somebody is let in by a token exactly where it belongs to a session that has not run out and whose user is not
/// banned, and as that user; a banned user is forbidden, and everybody else has to sign in.
pub proof fn law_session_lets_its_user_in(
    sessions: Map<Seq<char>, SessionModel>,
    store: StoreModel,
    token: Seq<char>,
    now: u64,
)
    requires
        trim(token) == token,
        token.len() > 0,
    ensures
        ({
            let r = session_check(sessions, store, Some("Bearer "@ + token), now);
            let there = sessions.dom().contains(token) && sessions[token].issued_at + 43_200 > now;
            &&& r is Ok <==> there && !user_of(store.users, sessions[token].user.id).banned
            &&& r matches Ok(session) ==> session == sessions[token]
            &&& r matches Err(e) ==> e.status == if there {
                403u16
            } else {
                401
            }
        }),
        session_check(sessions, store, None, now) matches Err(e) && e.status == 401,
{
    law_token_follows_the_word(token, token);
}

/// Whoever signs in is a user as Telegram names them: neither banned nor new where no new users are taken. The rest
/// is refused: those as forbidden, and data that does not stand the test as not signed in.
pub proof fn law_login_is_open_to_users(store: StoreModel, init_data: Seq<char>, bot_token: Seq<char>, now: u64)
    ensures
        match login_result(init_data, bot_token, now) {
            Ok(user) => {
                let r = login_check(store, init_data, bot_token, now);
                let known = store.users.dom().contains(user.id);
                &&& r is Ok <==> !user_of(store.users, user.id).banned && (known || store.settings.allow_new_users)
                &&& r matches Ok(u) ==> u == user
                &&& r matches Err(e) ==> e.status == 403
                &&& user_of(after_login(store, user, now).users, user.id).display_name == user.name
                &&& user_of(after_login(store, user, now).users, user.id).last_seen == now
                &&& user_of(after_login(store, user, now).users, user.id).favorites == user_of(store.users, user.id).favorites
            },
            Err(_) => login_check(store, init_data, bot_token, now) matches Err(e) && e.status == 401,
        },
{
}

} // verus!
