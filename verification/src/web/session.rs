//! Who a request is from.

use vstd::prelude::*;

use crate::accounts::{self, Accounts, Role, User};
use crate::auth::{self, Header, Headers, SESSION_COOKIE};
use crate::web::error::AppError;

verus! {

#[derive(Debug)]
pub struct CurrentUser {
    pub user: User,
    pub token_hash: Vec<u8>,
}

/// The hash of the token that a request carries in its cookie.
pub open spec fn carried(list: Seq<Header>) -> Option<Seq<u8>> {
    match auth::cookie_among(list, SESSION_COOKIE@, list.len() as int) {
        Some(token) => Some(auth::stored_for(token)),
        None => None,
    }
}

/// Who is logged in with the token that a request carries.
pub open spec fn bearer(db: Accounts, list: Seq<Header>, now: i64) -> Option<User> {
    match carried(list) {
        Some(hash) => accounts::session_holder(db, hash, now),
        None => None,
    }
}

pub fn current_user(db: &Accounts, headers: &Headers, now: i64) -> (r: Option<CurrentUser>)
    ensures
        match bearer(*db, headers.list@, now) {
            Some(user) => r matches Some(current) && current.user == user && carried(headers.list@)
                == Some(current.token_hash@),
            None => r is None,
        },
{
    let token = match auth::cookie_value(headers, SESSION_COOKIE) {
        Some(token) => token,
        None => {
            return None;
        },
    };
    let token_hash = auth::token_hash(token.as_str());
    match accounts::session_user(db, token_hash.as_slice(), now) {
        Some(user) => Some(CurrentUser { user, token_hash }),
        None => None,
    }
}

/// What a request is answered that nobody is logged in for.
#[derive(Debug, Clone, Copy, PartialEq, Eq, Structural)]
pub enum LoginRequired {
    /// Status 401 with `HX-Redirect: /login`.
    HxRedirect,
    /// On to `/login`.
    Redirect,
    /// Status 401.
    Unauthorized,
}

/// A page load is sent to the login page. An htmx request gets `HX-Redirect` instead, because
/// following a plain redirect would swap the login page into a fragment of the current one.
pub fn login_required(headers: &Headers, is_get: bool) -> (r: LoginRequired)
    ensures
        r == if auth::has_header(headers.list@, "hx-request"@) {
            LoginRequired::HxRedirect
        } else if is_get {
            LoginRequired::Redirect
        } else {
            LoginRequired::Unauthorized
        },
{
    if auth::contains_header(headers, "hx-request") {
        LoginRequired::HxRedirect
    } else if is_get {
        LoginRequired::Redirect
    } else {
        LoginRequired::Unauthorized
    }
}

#[derive(Debug)]
pub struct AdminUser(pub CurrentUser);

impl AdminUser {
    /// Only admins pass.
    pub fn from_current(current: CurrentUser) -> (r: Result<AdminUser, AppError>)
        ensures
            r == if current.user.role == Role::Admin {
                Ok::<AdminUser, AppError>(AdminUser(current))
            } else {
                Err(AppError::Forbidden)
            },
    {
        if current.user.is_admin() {
            Ok(AdminUser(current))
        } else {
            Err(AppError::Forbidden)
        }
    }
}

/// A logged out request, or one whose session has ended, is from nobody.
pub proof fn sessions_are_needed(db: Accounts, list: Seq<Header>, now: i64)
    ensures
        bearer(db, list, now) is Some ==> {
            let i = accounts::session_at(db.sessions@, carried(list)->0, 0);
            carried(list) is Some && i < db.sessions@.len() && db.sessions@[i].expires_at > now
        },
        bearer(db, list, now) matches Some(user) ==> !user.disabled,
{
}

} // verus!
