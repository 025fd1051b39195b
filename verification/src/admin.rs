//! What administrators may do to each other.
use crate::api::{refusal, refuse, ApiError, ApiErrorModel};
use crate::auth::{SessionModel, Sessions};
use crate::console::{action_outcome, action_view, user_action as act_on_user, Outcome};
use crate::dialog::{opt_step, Step};
use crate::store::{Store, StoreModel};
use crate::text::same;
use vstd::prelude::*;

verus! {

/// Whether a user is an administrator.
pub fn is_admin(admins: &Vec<i64>, user_id: i64) -> (r: bool)
    ensures
        r == admins@.contains(user_id),
{
    let mut i: usize = 0;
    while i < admins.len()
        invariant
            i <= admins@.len(),
            forall|j: int| 0 <= j < i ==> #[trigger] admins@[j] != user_id,
        decreases admins.len() - i,
    {
        if admins[i] == user_id {
            return true;
        }
        i += 1;
    }
    false
}

/// Whether whoever is signed in is an administrator.
pub fn admin_session(admins: &Vec<i64>, user_id: i64) -> (r: Result<(), ApiError>)
    ensures
        crate::api::check_view(r) == if admins@.contains(user_id) {
            Ok(())
        } else {
            Err(refusal(403, "需要管理员权限"@))
        },
{
    if is_admin(admins, user_id) {
        Ok(())
    } else {
        Err(refuse(403, "需要管理员权限"))
    }
}

/// Why an administrator may not do that to another; nothing where they may.
pub open spec fn protection(admins: Seq<i64>, own_id: i64, user_id: i64, action: Seq<char>) -> Option<ApiErrorModel> {
    if action == "ban"@ && admins.contains(user_id) {
        Some(refusal(400, "不能停用管理员"@))
    } else if action == "delete"@ && admins.contains(user_id) && user_id != own_id {
        Some(refusal(400, "不能删除其他管理员"@))
    } else {
        None
    }
}

/// What an action of the administrator `own_id` on a user does.
pub open spec fn admin_outcome(
    store: StoreModel,
    sessions: Map<Seq<char>, SessionModel>,
    admins: Seq<i64>,
    own_id: i64,
    user_id: i64,
    action: Seq<char>,
    running: bool,
    now: u64,
) -> Outcome {
    match protection(admins, own_id, user_id, action) {
        Some(e) => if store.users.dom().contains(user_id) {
            Outcome { store: store, sessions: sessions, result: Err(e), step: None }
        } else {
            Outcome { store: store, sessions: sessions, result: Err(refusal(404, "没有这个用户"@)), step: None }
        },
        None => action_outcome(store, sessions, user_id, action, true, running, now),
    }
}

/// Does something to a user on behalf of the administrator `own_id`. Administrators can neither be
/// banned nor be deleted by others, so that nobody locks the others out.
pub fn user_action(
    store: &mut Store,
    sessions: &mut Sessions,
    admins: &Vec<i64>,
    own_id: i64,
    user_id: i64,
    action: &str,
    running: bool,
    now: u64,
) -> (r: (Result<Option<bool>, ApiError>, Option<Step>))
    ensures
        admin_outcome(old(store)@, old(sessions)@, admins@, own_id, user_id, action@, running, now) == (Outcome {
            store: final(store)@,
            sessions: final(sessions)@,
            result: action_view(r.0),
            step: opt_step(r.1),
        }),
{
    proof {
        reveal_strlit("ban");
        reveal_strlit("delete");
        assert("ban"@.len() != "delete"@.len());
    }
    if store.has_user(user_id) && is_admin(admins, user_id) {
        if same(action, "ban") {
            return (Err(refuse(400, "不能停用管理员")), None);
        }
        if same(action, "delete") && user_id != own_id {
            return (Err(refuse(400, "不能删除其他管理员")), None);
        }
    }
    act_on_user(store, sessions, user_id, action, true, running, now)
}

/// No administrator is ever banned, or deleted by another one, through what administrators can do.
pub proof fn law_admins_are_protected(
    store: StoreModel,
    sessions: Map<Seq<char>, SessionModel>,
    admins: Seq<i64>,
    own_id: i64,
    user_id: i64,
    action: Seq<char>,
    running: bool,
    now: u64,
)
    requires
        admins.contains(user_id),
        store.users.dom().contains(user_id),
    ensures
        ({
            let after = admin_outcome(store, sessions, admins, own_id, user_id, action, running, now).store;
            &&& user_id != own_id ==> after.users.dom().contains(user_id)
            &&& after.users.dom().contains(user_id) && !store.users[user_id].banned ==> !after.users[user_id].banned
        }),
{
    reveal_strlit("ban");
    reveal_strlit("unban");
    reveal_strlit("stop_watch");
    reveal_strlit("delete");
}

/// Only administrators are protected: anybody else can be banned and deleted, an administrator may delete themselves,
/// and what protects another is a bad request.
pub proof fn law_only_admins_are_protected(admins: Seq<i64>, own_id: i64, user_id: i64, action: Seq<char>)
    ensures
        !admins.contains(user_id) ==> protection(admins, own_id, user_id, action) is None,
        protection(admins, user_id, user_id, "delete"@) is None,
        admins.contains(user_id) ==> protection(admins, own_id, user_id, "ban"@) is Some,
        admins.contains(user_id) && user_id != own_id ==> protection(admins, own_id, user_id, "delete"@) is Some,
        action != "ban"@ && action != "delete"@ ==> protection(admins, own_id, user_id, action) is None,
        protection(admins, own_id, user_id, action) matches Some(e) ==> e.status == 400,
{
    reveal_strlit("ban");
    reveal_strlit("delete");
    assert("ban"@.len() == 3 && "delete"@.len() == 6);
}

} // verus!
