//! The dashboard, logging in and out, and people's own accounts.

use vstd::prelude::*;

use crate::accounts::{
    self, Account, AccountError, Accounts, Grants, InviteRecord, Permission, Session, Theme, Themes,
    User,
};
use crate::auth::{self, Header, Headers, LoginLimiter, SESSION_TTL};
use crate::config::{self, Nozzle};
use crate::jobs::{self, Job, Jobs, MountedNozzle, PrinterRecord};
use crate::lists;
use crate::text;
use crate::web::error::AppError;
use crate::web::queue::{self, JobRow, Surroundings};
use crate::web::session::CurrentUser;
use crate::web::views::PrinterCard;

verus! {

// ---------------------------------------------------------------------------------------------
// The dashboard
// ---------------------------------------------------------------------------------------------

#[derive(Debug)]
pub struct DashboardPage {
    pub card: PrinterCard,
    pub camera_enabled: bool,
    /// Only for those allowed to record the nozzle.
    pub nozzle_choices: Option<Vec<NozzleChoice>>,
    /// The front of the queue; `queue_total` counts every unfinished job.
    pub rows: Vec<JobRow>,
    pub queue_total: usize,
    pub compact: bool,
}

#[derive(Debug, PartialEq, Eq)]
pub struct NozzleChoice {
    pub value: &'static str,
    pub selected: bool,
}

pub open spec fn are_choices(choices: Seq<NozzleChoice>, mounted: Nozzle) -> bool {
    choices.len() == 4 && forall|i: int|
        0 <= i < 4 ==> (#[trigger] choices[i]).value@ == Nozzle::ALL[i].name() && choices[i].selected
            == (Nozzle::ALL[i] == mounted)
}

/// Every nozzle, the mounted one chosen.
pub fn nozzle_choices(mounted: Nozzle) -> (r: Vec<NozzleChoice>)
    ensures
        are_choices(r@, mounted),
{
    let mut choices: Vec<NozzleChoice> = Vec::new();
    let mut i: usize = 0;
    while i < 4
        invariant
            i <= 4,
            choices@.len() == i,
            forall|k: int|
                0 <= k < i ==> (#[trigger] choices@[k]).value@ == Nozzle::ALL[k].name()
                    && choices@[k].selected == (Nozzle::ALL[k] == mounted),
        decreases 4 - i,
    {
        let nozzle = Nozzle::ALL[i];
        choices.push(NozzleChoice { value: nozzle.as_str(), selected: nozzle == mounted });
        i += 1;
    }
    choices
}

/// How many jobs the dashboard shows of the queue.
pub const FRONT: usize = 5;

/// The printer, the nozzle, and the front of the queue. `front` and `total` are what
/// `queue::upcoming` gives.
pub fn dashboard(
    db: &Jobs,
    front: &Vec<Job>,
    total: usize,
    has_gcode: &Vec<bool>,
    around: &Surroundings,
    card: PrinterCard,
    camera_enabled: bool,
    grants: &Grants,
    mounted: &MountedNozzle,
) -> (r: DashboardPage)
    requires
        around.well_formed(),
        has_gcode@.len() == front@.len(),
        forall|i: int|
            0 <= i < front@.len() ==> queue::presentable(
                #[trigger] front@[i],
                jobs::tools_of(db.tools@, front@[i].id),
                around.readiness.bindings@,
            ),
    ensures
        r.card == card,
        r.camera_enabled == camera_enabled,
        r.queue_total == total,
        r.compact,
        queue::are_rows(r.rows@, front@, db.tools@, has_gcode@, *around),
        match r.nozzle_choices {
            Some(choices) => accounts::holds(grants.list@, *around.user, Permission::SetNozzle)
                && are_choices(choices@, mounted.nozzle),
            None => !accounts::holds(grants.list@, *around.user, Permission::SetNozzle),
        },
{
    let rows = queue::job_rows(db, front, has_gcode, around);
    DashboardPage {
        card,
        camera_enabled,
        nozzle_choices: if accounts::has_permission(grants, around.user, Permission::SetNozzle) {
            Some(nozzle_choices(mounted.nozzle))
        } else {
            None
        },
        rows,
        queue_total: total,
        compact: true,
    }
}

#[derive(Debug, PartialEq, Eq)]
pub struct NozzleForm {
    pub nozzle: String,
}

pub open spec fn unknown_nozzle(raw: Seq<char>) -> Seq<char> {
    "unknown nozzle "@ + config::quoted(raw)
}

/// Records which nozzle is mounted, for those who may, and then shows the dashboard.
pub fn set_nozzle(db: &mut Jobs, grants: &Grants, form: &NozzleForm, user: &User, now: i64) -> (r:
    Result<&'static str, AppError>)
    ensures
        final(db).jobs@ == old(db).jobs@,
        final(db).tools@ == old(db).tools@,
        if !accounts::holds(grants.list@, *user, Permission::SetNozzle) {
            r == Err::<&'static str, AppError>(AppError::Forbidden) && final(db).printer == old(
                db).printer
        } else {
            match Nozzle::named(form.nozzle@) {
                None => r matches Err(error) && error.is_bad_request(unknown_nozzle(form.nozzle@))
                    && final(db).printer == old(db).printer,
                Some(nozzle) => {
                    &&& r matches Ok(next) && next@ == "/"@
                    &&& final(db).printer == (PrinterRecord {
                        nozzle: Some(nozzle),
                        nozzle_changed_by: Some(user.id),
                        nozzle_changed_at: Some(now),
                        ..old(db).printer
                    })
                },
            }
        },
{
    if !accounts::has_permission(grants, user, Permission::SetNozzle) {
        return Err(AppError::Forbidden);
    }
    match Nozzle::parse(form.nozzle.as_str()) {
        None => {
            let mut out = "unknown nozzle ".to_string();
            config::push_quoted(&mut out, form.nozzle.as_str());
            Err(AppError::BadRequest(out))
        },
        Some(nozzle) => {
            jobs::set_mounted_nozzle(db, nozzle, user.id, now);
            Ok("/")
        },
    }
}

// ---------------------------------------------------------------------------------------------
// Sessions
// ---------------------------------------------------------------------------------------------

/// The session of a user is on record under the hash of a token, for as long as logins last.
pub open spec fn session_begun(
    before: Seq<Session>,
    after: Seq<Session>,
    user_id: i64,
    token: Seq<char>,
    now: i64,
) -> bool {
    let begun = after.last();
    &&& after == before.push(begun)
    &&& begun.token_hash@ == auth::stored_for(token)
    &&& begun.user_id == user_id
    &&& begun.created_at == now
    &&& begun.expires_at == now + SESSION_TTL
}

/// The cookie that carries a token back.
pub open spec fn cookie_for(list: Seq<Header>, trust_proxy: bool, token: Seq<char>) -> Seq<char> {
    auth::session_cookie_text(token, SESSION_TTL as nat, auth::came_by_https(list, trust_proxy))
}

/// Begins a session under a token; the cookie carries the token. It fails only where the hash of
/// the token is already in use.
pub fn begin_session(
    db: &mut Accounts,
    headers: &Headers,
    trust_proxy: bool,
    user_id: i64,
    token: &str,
    now: i64,
) -> (r: Result<String, AppError>)
    requires
        now + SESSION_TTL <= i64::MAX,
    ensures
        old(db).well_formed() ==> final(db).well_formed(),
        final(db).accounts@ == old(db).accounts@,
        final(db).invites@ == old(db).invites@,
        if accounts::session_at(old(db).sessions@, auth::stored_for(token@), 0) < old(
            db).sessions@.len() {
            r matches Err(error) && error is Internal && final(db).sessions@ == old(db).sessions@
        } else {
            &&& r matches Ok(cookie) && cookie@ == cookie_for(headers.list@, trust_proxy, token@)
            &&& session_begun(old(db).sessions@, final(db).sessions@, user_id, token@, now)
        },
{
    let token_hash = auth::token_hash(token);
    let expires: i64 = now + SESSION_TTL as i64;
    match accounts::create_session(db, token_hash, user_id, now, expires) {
        Ok(()) => Ok(auth::session_cookie(token, auth::is_https(headers, trust_proxy))),
        Err(error) => Err(AppError::from_account(error)),
    }
}

/// Begins a session under a new token. It fails where no randomness can be had or the token is
/// in use.
pub fn start_session(
    db: &mut Accounts,
    headers: &Headers,
    trust_proxy: bool,
    user_id: i64,
    now: i64,
) -> (r: Result<String, AppError>)
    requires
        now + SESSION_TTL <= i64::MAX,
    ensures
        old(db).well_formed() ==> final(db).well_formed(),
        final(db).accounts@ == old(db).accounts@,
        final(db).invites@ == old(db).invites@,
        match r {
            Ok(cookie) => exists|token: Seq<char>|
                token.len() == 64 && cookie@ == cookie_for(headers.list@, trust_proxy, token)
                    && #[trigger] session_begun(
                    old(db).sessions@,
                    final(db).sessions@,
                    user_id,
                    token,
                    now,
                ),
            Err(error) => error is Internal && final(db).sessions@ == old(db).sessions@,
        },
{
    match auth::new_token() {
        Ok((token, _)) => begin_session(db, headers, trust_proxy, user_id, token.as_str(), now),
        Err(said) => Err(AppError::Internal(said)),
    }
}

/// Ends the session of a request, and gives the cookie that clears the browser's.
pub fn logout(db: &mut Accounts, headers: &Headers, trust_proxy: bool, current: &CurrentUser) -> (r:
    String)
    ensures
        old(db).well_formed() ==> final(db).well_formed(),
        final(db).accounts@ == old(db).accounts@,
        final(db).invites@ == old(db).invites@,
        final(db).sessions@ == old(db).sessions@.filter(
            accounts::under_other_token(current.token_hash@),
        ),
        r@ == auth::session_cookie_text(""@, 0, auth::came_by_https(headers.list@, trust_proxy)),
{
    accounts::delete_session(db, current.token_hash.as_slice());
    auth::clear_session_cookie(auth::is_https(headers, trust_proxy))
}

// ---------------------------------------------------------------------------------------------
// Logging in
// ---------------------------------------------------------------------------------------------

#[derive(Debug, PartialEq, Eq)]
pub struct LoginPage {
    pub username: String,
    pub error: Option<String>,
}

#[derive(Debug, PartialEq, Eq)]
pub struct LoginForm {
    pub username: String,
    pub password: String,
}

/// What an attempt to log in comes to.
#[derive(Debug, PartialEq, Eq)]
pub enum Login {
    /// On to `/`, with this cookie.
    Started(String),
    Failed {
        status: u16,
        page: LoginPage,
        /// Why the password could not be compared, for the log.
        unchecked: Option<String>,
    },
}

impl Login {
    pub open spec fn is_failed(self, code: u16, username: Seq<char>, said: Seq<char>) -> bool {
        self matches Login::Failed { status, page, .. } && status == code && page.username@
            == username && text::opt_view(page.error) == Some(said)
    }

    /// Whether the password was compared, if there was anything to compare it with.
    pub open spec fn is_checked(self) -> bool {
        !(self matches Login::Failed { unchecked: Some(_), .. })
    }
}

/// What is said to a name that has to wait, for so many milliseconds.
pub open spec fn wait_text(millis: int) -> Seq<char> {
    "Too many failed attempts. Try again in "@ + text::decimal(
        if millis / 1000 < 1 {
            1
        } else {
            (millis / 1000) as nat
        },
    ) + " seconds."@
}

/// The account that a name logs in to, if it may.
pub open spec fn open_account(db: Accounts, username: Seq<char>) -> Option<Account> {
    let i = accounts::name_at(db.accounts@, username, 0);
    if i < db.accounts@.len() && !db.accounts@[i].user.disabled {
        Some(db.accounts@[i])
    } else {
        None
    }
}

fn login_failed(
    status: u16,
    username: String,
    message: String,
    unchecked: Option<String>,
) -> (r: Login)
    ensures
        r.is_failed(status, username@, message@),
        r.is_checked() == (unchecked is None),
{
    Login::Failed { status, page: LoginPage { username, error: Some(message) }, unchecked }
}

/// Decides on a login once the password was compared: the account is entered, and the failures
/// of the name forgotten, only where the password matches and the account is not disabled.
/// Otherwise one failure more is counted.
pub fn decide_login(
    limiter: &mut LoginLimiter,
    username: &str,
    user: Option<User>,
    password_matches: bool,
    clock: u64,
) -> (r: Option<User>)
    requires
        auth::names_differ(old(limiter).failures@),
    ensures
        auth::names_differ(final(limiter).failures@),
        match user {
            Some(known) if password_matches && !known.disabled => r == user
                && auth::success_recorded(
                old(limiter).failures@,
                final(limiter).failures@,
                username@,
            ),
            _ => r is None && auth::failure_recorded(
                old(limiter).failures@,
                final(limiter).failures@,
                username@,
                clock,
            ),
        },
{
    if let Some(known) = user {
        if password_matches && !known.disabled {
            limiter.record_success(username);
            return Some(known);
        }
    }
    limiter.record_failure(username, clock);
    None
}

/// Logs in with a name and a password. A name that failed too often has to wait. `clock` counts
/// milliseconds, and `stand_in` is verified in place of the hash of a name that does not exist.
pub fn login(
    db: &mut Accounts,
    limiter: &mut LoginLimiter,
    headers: &Headers,
    trust_proxy: bool,
    form: &LoginForm,
    stand_in: &str,
    now: i64,
    clock: u64,
) -> (r: Result<Login, AppError>)
    requires
        auth::names_differ(old(limiter).failures@),
        now + SESSION_TTL <= i64::MAX,
    ensures
        old(db).well_formed() ==> final(db).well_formed(),
        auth::names_differ(final(limiter).failures@),
        final(db).accounts@ == old(db).accounts@,
        final(db).invites@ == old(db).invites@,
        ({
            let username = text::trim(form.username@);
            let found = open_account(*old(db), username);
            match old(limiter).must_wait(username, clock) {
                Some(millis) => {
                    &&& r matches Ok(failed) && failed.is_failed(429, username, wait_text(millis))
                        && failed.is_checked()
                    &&& final(limiter).failures@ == old(limiter).failures@
                    &&& final(db).sessions@ == old(db).sessions@
                },
                None => {
                    &&& found is None ==> (r matches Ok(login) && login is Failed)
                    &&& match r {
                        Ok(Login::Started(cookie)) => {
                            &&& auth::hashes_to(form.password@, found->0.password_hash@)
                            &&& auth::success_recorded(
                                old(limiter).failures@,
                                final(limiter).failures@,
                                username,
                            )
                            &&& exists|token: Seq<char>|
                                token.len() == 64 && cookie@ == cookie_for(
                                    headers.list@,
                                    trust_proxy,
                                    token,
                                ) && #[trigger] session_begun(
                                    old(db).sessions@,
                                    final(db).sessions@,
                                    found->0.user.id,
                                    token,
                                    now,
                                )
                        },
                        Ok(failed) => {
                            &&& failed.is_failed(401, username, "Wrong username or password."@)
                            &&& if failed.is_checked() {
                                !(found is Some && auth::hashes_to(
                                    form.password@,
                                    found->0.password_hash@,
                                ))
                            } else {
                                accounts::name_at(old(db).accounts@, username, 0) < old(
                                    db,
                                ).accounts@.len()
                            }
                            &&& auth::failure_recorded(
                                old(limiter).failures@,
                                final(limiter).failures@,
                                username,
                                clock,
                            )
                            &&& final(db).sessions@ == old(db).sessions@
                        },
                        Err(error) => {
                            &&& error is Internal
                            &&& auth::hashes_to(form.password@, found->0.password_hash@)
                            &&& auth::success_recorded(
                                old(limiter).failures@,
                                final(limiter).failures@,
                                username,
                            )
                            &&& final(db).sessions@ == old(db).sessions@
                        },
                    }
                },
            }
        }),
{
    let username = text::trim_str(form.username.as_str());
    if let Some(millis) = limiter.retry_after(username.as_str(), clock) {
        let mut said = "Too many failed attempts. Try again in ".to_string();
        let seconds: u64 = millis / 1000;
        text::push_decimal(
            &mut said,
            if seconds < 1 {
                1
            } else {
                seconds
            },
        );
        said.append(" seconds.");
        assert(said@ =~= wait_text(millis as int));
        return Ok(login_failed(429, username, said, None));
    }
    let (user, hash) = match accounts::login_record(db, username.as_str()) {
        Some((user, hash)) => (Some(user), Some(hash)),
        None => (None, None),
    };
    let stored: Option<&str> = match &hash {
        Some(hash) => Some(hash.as_str()),
        None => None,
    };
    let checked = auth::verify_password(form.password.as_str(), stored, stand_in);
    let password_matches = auth::accepted(true, &checked);
    match decide_login(limiter, username.as_str(), user, password_matches, clock) {
        None => Ok(
            login_failed(
                401,
                username,
                "Wrong username or password.".to_string(),
                checked.err(),
            ),
        ),
        Some(user) => match start_session(db, headers, trust_proxy, user.id, now) {
            Ok(cookie) => Ok(Login::Started(cookie)),
            Err(error) => Err(error),
        },
    }
}

// ---------------------------------------------------------------------------------------------
// Invites
// ---------------------------------------------------------------------------------------------

#[derive(Debug, PartialEq, Eq)]
pub struct InvitePage {
    pub token: String,
    pub reset_username: Option<String>,
    pub username: String,
    pub error: Option<String>,
}

/// The position of the invite that a token redeems, if it can still be redeemed.
pub open spec fn open_invite(db: Accounts, token: Seq<char>, now: i64) -> Option<int> {
    let i = accounts::invite_at(db.invites@, auth::stored_for(token), 0);
    if i < db.invites@.len() && accounts::is_usable(db.invites@[i], now) {
        Some(i)
    } else {
        None
    }
}

/// Whose password an invite resets.
pub open spec fn reset_name(db: Accounts, i: int) -> Option<Seq<char>> {
    match accounts::shown_invite(db, db.invites@[i]).reset_user {
        Some((_, name)) => Some(name@),
        None => None,
    }
}

impl InvitePage {
    pub open spec fn shows(
        self,
        token: Seq<char>,
        reset: Option<Seq<char>>,
        username: Seq<char>,
        error: Option<Seq<char>>,
    ) -> bool {
        &&& self.token@ == token
        &&& text::opt_view(self.reset_username) == reset
        &&& self.username@ == username
        &&& text::opt_view(self.error) == error
    }
}

fn usable_invite(db: &Accounts, token: &str, now: i64) -> (r: Option<Option<String>>)
    ensures
        match open_invite(*db, token@, now) {
            Some(i) => r matches Some(reset) && text::opt_view(reset) == reset_name(*db, i),
            None => r is None,
        },
{
    let hash = auth::token_hash(token);
    match accounts::invite(db, hash.as_slice(), now) {
        Some(invite) => match invite.reset_user {
            Some((_, name)) => Some(Some(name)),
            None => Some(None),
        },
        None => None,
    }
}

/// The form that redeems an invite.
pub fn invite_page(db: &Accounts, token: &str, now: i64) -> (r: Result<InvitePage, AppError>)
    ensures
        match open_invite(*db, token@, now) {
            Some(i) => r matches Ok(page) && page.shows(token@, reset_name(*db, i), ""@, None),
            None => r matches Err(error) && error.is_from_account(AccountError::InviteInvalid),
        },
{
    match usable_invite(db, token, now) {
        Some(reset_username) => Ok(
            InvitePage {
                token: token.to_string(),
                reset_username,
                username: "".to_string(),
                error: None,
            },
        ),
        None => Err(AppError::from_account(AccountError::InviteInvalid)),
    }
}

#[derive(Debug, PartialEq, Eq)]
pub struct RedeemForm {
    pub username: String,
    pub password: String,
    pub confirm: String,
}

/// What is wrong with what was filled in. A password reset asks for no name.
pub open spec fn redeem_trouble(form: RedeemForm, is_reset: bool) -> Option<Seq<char>> {
    if form.password@ != form.confirm@ {
        Some("The passwords do not match."@)
    } else if !is_reset && !accounts::is_username(text::trim(form.username@)) {
        Some("usernames are 1 to 32 letters, digits, dots, dashes or underscores"@)
    } else if !accounts::is_password(form.password@) {
        Some("passwords need at least 10 characters (and at most 256 bytes)"@)
    } else {
        None
    }
}

pub fn redeem_problem(form: &RedeemForm, is_reset: bool) -> (r: Option<String>)
    ensures
        text::opt_view(r) == redeem_trouble(*form, is_reset),
{
    if !text::same(form.password.as_str(), form.confirm.as_str()) {
        return Some("The passwords do not match.".to_string());
    }
    if !is_reset {
        let username = text::trim_str(form.username.as_str());
        if let Err(message) = accounts::validate_username(username.as_str()) {
            return Some(message);
        }
    }
    match accounts::validate_password(form.password.as_str()) {
        Ok(()) => None,
        Err(message) => Some(message),
    }
}

/// What redeeming the invite at position `i` leaves, for the user with the given id: a new
/// account, or a new password with every session of the user ended.
pub open spec fn is_redeemed(
    before: Accounts,
    i: int,
    username: Seq<char>,
    hash: Seq<char>,
    now: i64,
    id: i64,
    accounts: Seq<Account>,
    sessions: Seq<Session>,
    invites: Seq<InviteRecord>,
) -> bool {
    let old = before.accounts@;
    &&& invites == before.invites@.update(
        i,
        InviteRecord { used_at: Some(now), ..before.invites@[i] },
    )
    &&& match before.invites@[i].reset_user {
        Some(reset) => {
            let k = accounts::account_at(old, reset, 0);
            &&& id == reset
            &&& sessions == before.sessions@.filter(accounts::stays(reset, None))
            &&& if k < old.len() {
                &&& accounts == old.update(
                    k,
                    Account { password_hash: accounts[k].password_hash, ..old[k] },
                )
                &&& accounts[k].password_hash@ == hash
            } else {
                accounts == old
            }
        },
        None => {
            let added = accounts.last();
            &&& accounts::name_at(old, username, 0) == old.len()
            &&& id == accounts::next_account_id(old)
            &&& sessions == before.sessions@
            &&& accounts == old.push(added)
            &&& added.user.id == id
            &&& added.user.username@ == username
            &&& added.user.role == before.invites@[i].role
            &&& !added.user.disabled
            &&& added.user.created_at == now
            &&& added.password_hash@ == hash
        },
    }
}

/// The name that a new account would have belongs to somebody already.
pub open spec fn is_taken(db: Accounts, i: int, username: Seq<char>) -> bool {
    db.invites@[i].reset_user is None && accounts::name_at(db.accounts@, username, 0)
        < db.accounts@.len()
}

/// Redeems an invite once the password is hashed: the id of the user, or the form again where
/// the name is taken.
pub fn redeem_hashed(
    db: &mut Accounts,
    token: &str,
    username: String,
    reset_username: Option<String>,
    password_hash: String,
    now: i64,
) -> (r: Result<Result<i64, InvitePage>, AppError>)
    requires
        accounts::next_account_id(old(db).accounts@) <= i64::MAX,
    ensures
        old(db).well_formed() ==> final(db).well_formed(),
        accounts::active_admins(final(db).accounts@) >= accounts::active_admins(old(db).accounts@),
        match open_invite(*old(db), token@, now) {
            None => {
                &&& r matches Err(error) && error.is_from_account(AccountError::InviteInvalid)
                &&& final(db).unchanged(*old(db))
            },
            Some(i) => if is_taken(*old(db), i, username@) {
                &&& r matches Ok(Err(page)) && page.shows(
                    token@,
                    text::opt_view(reset_username),
                    username@,
                    Some("That username is taken."@),
                )
                &&& final(db).unchanged(*old(db))
            } else {
                r matches Ok(Ok(id)) && is_redeemed(
                    *old(db),
                    i,
                    username@,
                    password_hash@,
                    now,
                    id,
                    final(db).accounts@,
                    final(db).sessions@,
                    final(db).invites@,
                )
            },
        },
{
    proof {
        accounts::lemma_name_at(db.accounts@, username@, 0);
    }
    let hash = auth::token_hash(token);
    let kept = username.clone();
    match accounts::redeem_invite(db, hash.as_slice(), username, password_hash, now) {
        Ok(id) => {
            proof {
                accounts::lemma_account_at(old(db).accounts@, id, 0);
            }
            Ok(Ok(id))
        },
        Err(AccountError::UsernameTaken) => Ok(
            Err(
                InvitePage {
                    token: token.to_string(),
                    reset_username,
                    username: kept,
                    error: Some("That username is taken.".to_string()),
                },
            ),
        ),
        Err(error) => Err(AppError::from_account(error)),
    }
}

/// What redeeming an invite comes to.
#[derive(Debug, PartialEq, Eq)]
pub enum Redeemed {
    /// On to `/`, with this cookie.
    Started(String),
    /// Status 400 with the form again.
    Retry(InvitePage),
}

/// An invite was redeemed and a session begun for its user.
pub open spec fn is_entered(
    before: Accounts,
    after: Accounts,
    i: int,
    username: Seq<char>,
    hash: Seq<char>,
    id: i64,
    sessions: Seq<Session>,
    token: Seq<char>,
    now: i64,
) -> bool {
    &&& is_redeemed(before, i, username, hash, now, id, after.accounts@, sessions, after.invites@)
    &&& session_begun(sessions, after.sessions@, id, token, now)
}

/// Redeems an invite and logs its user in. It fails, where the invite is good and the form is
/// filled in, only for want of randomness or memory: then nothing was changed, or the invite is
/// redeemed and only the session is missing.
pub fn redeem(
    db: &mut Accounts,
    headers: &Headers,
    trust_proxy: bool,
    token: &str,
    form: &RedeemForm,
    now: i64,
) -> (r: Result<Redeemed, AppError>)
    requires
        accounts::next_account_id(old(db).accounts@) <= i64::MAX,
        now + SESSION_TTL <= i64::MAX,
    ensures
        old(db).well_formed() ==> final(db).well_formed(),
        accounts::active_admins(final(db).accounts@) >= accounts::active_admins(old(db).accounts@),
        ({
            let username = text::trim(form.username@);
            match open_invite(*old(db), token@, now) {
                None => {
                    &&& r matches Err(error) && error.is_from_account(AccountError::InviteInvalid)
                    &&& final(db).unchanged(*old(db))
                },
                Some(i) => {
                    let reset = reset_name(*old(db), i);
                    match redeem_trouble(*form, reset is Some) {
                        Some(trouble) => {
                            &&& r matches Ok(Redeemed::Retry(page)) && page.shows(
                                token@,
                                reset,
                                username,
                                Some(trouble),
                            )
                            &&& final(db).unchanged(*old(db))
                        },
                        None => match r {
                            Ok(Redeemed::Retry(page)) => {
                                &&& is_taken(*old(db), i, username)
                                &&& page.shows(
                                    token@,
                                    reset,
                                    username,
                                    Some("That username is taken."@),
                                )
                                &&& final(db).unchanged(*old(db))
                            },
                            Ok(Redeemed::Started(cookie)) => exists|
                                hash: Seq<char>,
                                id: i64,
                                sessions: Seq<Session>,
                                session_token: Seq<char>,
                            |
                                !is_taken(*old(db), i, username) && auth::hashes_to(
                                    form.password@,
                                    hash,
                                ) && session_token.len() == 64 && cookie@ == cookie_for(
                                    headers.list@,
                                    trust_proxy,
                                    session_token,
                                ) && #[trigger] is_entered(
                                    *old(db),
                                    *final(db),
                                    i,
                                    username,
                                    hash,
                                    id,
                                    sessions,
                                    session_token,
                                    now,
                                ),
                            Err(error) => {
                                &&& error is Internal
                                &&& final(db).unchanged(*old(db)) || !is_taken(*old(db), i, username)
                                    && exists|hash: Seq<char>, id: i64|
                                    auth::hashes_to(form.password@, hash) && #[trigger] is_redeemed(
                                        *old(db),
                                        i,
                                        username,
                                        hash,
                                        now,
                                        id,
                                        final(db).accounts@,
                                        final(db).sessions@,
                                        final(db).invites@,
                                    )
                            },
                        },
                    }
                },
            }
        }),
{
    let reset_username = match usable_invite(db, token, now) {
        Some(reset_username) => reset_username,
        None => {
            return Err(AppError::from_account(AccountError::InviteInvalid));
        },
    };
    let username = text::trim_str(form.username.as_str());
    if let Some(error) = redeem_problem(form, reset_username.is_some()) {
        return Ok(
            Redeemed::Retry(
                InvitePage {
                    token: token.to_string(),
                    reset_username,
                    username,
                    error: Some(error),
                },
            ),
        );
    }
    let password_hash = match auth::hash_password(form.password.as_str()) {
        Ok(hash) => hash,
        Err(said) => {
            return Err(AppError::Internal(said));
        },
    };
    let ghost hash = password_hash@;
    let ghost name = username@;
    match redeem_hashed(db, token, username, reset_username, password_hash, now) {
        Err(error) => Err(error),
        Ok(Err(page)) => Ok(Redeemed::Retry(page)),
        Ok(Ok(id)) => {
            let ghost sessions = db.sessions@;
            match start_session(db, headers, trust_proxy, id, now) {
                Err(error) => Err(error),
                Ok(cookie) => {
                    proof {
                        let session_token = choose|session_token: Seq<char>|
                            session_token.len() == 64 && cookie@ == cookie_for(
                                headers.list@,
                                trust_proxy,
                                session_token,
                            ) && #[trigger] session_begun(
                                sessions,
                                db.sessions@,
                                id,
                                session_token,
                                now,
                            );
                        assert(is_entered(
                            *old(db),
                            *db,
                            open_invite(*old(db), token@, now)->0,
                            name,
                            hash,
                            id,
                            sessions,
                            session_token,
                            now,
                        ));
                    }
                    Ok(Redeemed::Started(cookie))
                },
            }
        },
    }
}

// ---------------------------------------------------------------------------------------------
// One's own account
// ---------------------------------------------------------------------------------------------

#[derive(Debug, PartialEq, Eq)]
pub struct AccountPage {
    pub notice: Option<String>,
    pub error: Option<String>,
    /// Why the current password could not be compared, for the log.
    pub unchecked: Option<String>,
}

#[derive(Debug, PartialEq, Eq)]
pub struct ThemeForm {
    pub theme: String,
}

/// Picks a theme for the user who is logged in: the status, and the page.
pub fn change_theme(themes: &mut Themes, user: &User, form: &ThemeForm) -> (r: (u16, AccountPage))
    ensures
        match Theme::named(form.theme@) {
            Some(theme) => {
                &&& final(themes).picked@ == old(themes).picked@.push((user.id, theme))
                &&& r.0 == 200
                &&& text::opt_view(r.1.notice) == Some("Theme changed."@)
                &&& r.1.error is None
            },
            None => {
                &&& final(themes).picked@ == old(themes).picked@
                &&& r.0 == 400
                &&& r.1.notice is None
                &&& text::opt_view(r.1.error) == Some("That theme does not exist."@)
            },
        },
{
    match Theme::parse(form.theme.as_str()) {
        Some(theme) => {
            themes.set_theme(user.id, theme);
            (
                200,
                AccountPage {
                    notice: Some("Theme changed.".to_string()),
                    error: None,
                    unchecked: None,
                },
            )
        },
        None => (
            400,
            AccountPage {
                notice: None,
                error: Some("That theme does not exist.".to_string()),
                unchecked: None,
            },
        ),
    }
}

#[derive(Debug, PartialEq, Eq)]
pub struct PasswordForm {
    pub current: String,
    pub password: String,
    pub confirm: String,
}

pub open spec fn password_trouble(form: PasswordForm, current_matches: bool) -> Option<Seq<char>> {
    if !current_matches {
        Some("The current password is wrong."@)
    } else if form.password@ != form.confirm@ {
        Some("The new passwords do not match."@)
    } else if !accounts::is_password(form.password@) {
        Some("passwords need at least 10 characters (and at most 256 bytes)"@)
    } else {
        None
    }
}

/// What is wrong with what was filled in, once the current password was compared.
pub fn password_problem(form: &PasswordForm, current_matches: bool) -> (r: Option<String>)
    ensures
        text::opt_view(r) == password_trouble(*form, current_matches),
{
    if !current_matches {
        return Some("The current password is wrong.".to_string());
    }
    if !text::same(form.password.as_str(), form.confirm.as_str()) {
        return Some("The new passwords do not match.".to_string());
    }
    match accounts::validate_password(form.password.as_str()) {
        Ok(()) => None,
        Err(message) => Some(message),
    }
}

/// The password of a user is replaced, and every session ended but the given one.
pub open spec fn password_changed(
    before: Accounts,
    after: Accounts,
    id: i64,
    hash: Seq<char>,
    kept: Seq<u8>,
) -> bool {
    let k = accounts::account_at(before.accounts@, id, 0);
    &&& k < before.accounts@.len()
    &&& after.accounts@ == before.accounts@.update(
        k,
        Account { password_hash: after.accounts@[k].password_hash, ..before.accounts@[k] },
    )
    &&& after.accounts@[k].password_hash@ == hash
    &&& after.sessions@ == before.sessions@.filter(accounts::stays(id, Some(kept)))
    &&& after.invites@ == before.invites@
}

/// Changes the password of the user who is logged in, and logs out their other devices: the
/// status, and the page. It fails for want of randomness or memory, or where the user is gone.
pub fn change_password(
    db: &mut Accounts,
    current: &CurrentUser,
    form: &PasswordForm,
    stand_in: &str,
) -> (r: Result<(u16, AccountPage), AppError>)
    ensures
        old(db).well_formed() ==> final(db).well_formed(),
        ({
            let i = accounts::name_at(old(db).accounts@, current.user.username@, 0);
            let known = i < old(db).accounts@.len();
            let matches = known && auth::hashes_to(
                form.current@,
                old(db).accounts@[i].password_hash@,
            );
            match r {
                Ok((status, page)) => if page.error is None {
                    &&& status == 200
                    &&& page.unchecked is None
                    &&& text::opt_view(page.notice) == Some(
                        "Password changed. Other devices have been logged out."@,
                    )
                    &&& matches
                    &&& password_trouble(*form, true) is None
                    &&& exists|hash: Seq<char>|
                        auth::hashes_to(form.password@, hash) && #[trigger] password_changed(
                            *old(db),
                            *final(db),
                            current.user.id,
                            hash,
                            current.token_hash@,
                        )
                } else {
                    &&& status == 400
                    &&& page.notice is None
                    &&& match page.unchecked {
                        None => text::opt_view(page.error) == password_trouble(*form, matches),
                        Some(_) => known && text::opt_view(page.error) == password_trouble(
                            *form,
                            false,
                        ),
                    }
                    &&& final(db).unchanged(*old(db))
                },
                Err(error) => {
                    &&& matches
                    &&& password_trouble(*form, true) is None
                    &&& error is Internal || error is NotFound && accounts::account_at(
                        old(db).accounts@,
                        current.user.id,
                        0,
                    ) >= old(db).accounts@.len()
                    &&& final(db).unchanged(*old(db))
                },
            }
        }),
{
    let stored: Option<String> = match accounts::login_record(db, current.user.username.as_str()) {
        Some((_, hash)) => Some(hash),
        None => None,
    };
    let hash: Option<&str> = match &stored {
        Some(hash) => Some(hash.as_str()),
        None => None,
    };
    let checked = auth::verify_password(form.current.as_str(), hash, stand_in);
    if let Some(error) = password_problem(form, auth::accepted(true, &checked)) {
        return Ok(
            (400, AccountPage { notice: None, error: Some(error), unchecked: checked.err() }),
        );
    }
    let hash = match auth::hash_password(form.password.as_str()) {
        Ok(hash) => hash,
        Err(said) => {
            return Err(AppError::Internal(said));
        },
    };
    let ghost kept = hash@;
    match accounts::set_password(db, current.user.id, hash, Some(current.token_hash.as_slice())) {
        Ok(()) => {
            proof {
                accounts::lemma_account_at(old(db).accounts@, current.user.id, 0);
            }
            assert(password_changed(
                *old(db),
                *db,
                current.user.id,
                kept,
                current.token_hash@,
            ));
            Ok(
                (
                    200,
                    AccountPage {
                        notice: Some(
                            "Password changed. Other devices have been logged out.".to_string(),
                        ),
                        error: None,
                        unchecked: None,
                    },
                ),
            )
        },
        Err(error) => Err(AppError::from_account(error)),
    }
}

// ---------------------------------------------------------------------------------------------
// Laws
// ---------------------------------------------------------------------------------------------

/// Until it ends, a session stands for the user it was begun for, as long as their account is
/// there and not disabled.
pub proof fn a_session_stands_for_its_user(
    before: Accounts,
    after: Accounts,
    user_id: i64,
    token: Seq<char>,
    now: i64,
    later: i64,
)
    requires
        accounts::session_at(before.sessions@, auth::stored_for(token), 0)
            == before.sessions@.len(),
        session_begun(before.sessions@, after.sessions@, user_id, token, now),
        later < now + SESSION_TTL,
        accounts::account_at(after.accounts@, user_id, 0) < after.accounts@.len(),
        !after.accounts@[accounts::account_at(after.accounts@, user_id, 0)].user.disabled,
    ensures
        accounts::session_holder(after, auth::stored_for(token), later) == Some(
            after.accounts@[accounts::account_at(after.accounts@, user_id, 0)].user,
        ),
{
    accounts::lemma_session_pushed(before.sessions@, after.sessions@.last(), 0);
}

/// Once logged out, the token stands for nobody.
pub proof fn logging_out_ends_the_session(
    before: Accounts,
    after: Accounts,
    token_hash: Seq<u8>,
    now: i64,
)
    requires
        after.sessions@ == before.sessions@.filter(accounts::under_other_token(token_hash)),
    ensures
        accounts::session_holder(after, token_hash, now) is None,
{
    crate::lists::lemma_filter_positions(
        before.sessions@,
        accounts::under_other_token(token_hash),
    );
    accounts::lemma_session_at(after.sessions@, token_hash, 0);
}

/// A browser that sends a session cookie back is recognised by the token in it: whatever the
/// attributes say, the pair in front is what comes back.
pub proof fn cookies_carry_their_token(token: Seq<char>)
    requires
        forall|i: int| 0 <= i < token.len() ==> text::is_hex_digit(#[trigger] token[i]),
    ensures
        auth::cookie_of("printhub_session="@ + token, crate::auth::SESSION_COOKIE@) == Some(token),
{
    reveal_strlit("printhub_session=");
    reveal_strlit("printhub_session");
    let name = crate::auth::SESSION_COOKIE@;
    let pair = "printhub_session="@ + token;
    assert(name =~= pair.take(16));
    text::lemma_find(pair, ';', 0);
    text::lemma_find(pair, '=', 0);
    assert forall|i: int| 0 <= i < pair.len() implies #[trigger] pair[i] != ';' by {
        if i >= 17 {
            assert(pair[i] == token[i - 17]);
        }
    }
    assert(pair[16] == '=');
    assert forall|i: int| 0 <= i < 16 implies #[trigger] pair[i] != '=' by {}
    assert(text::find(pair, '=', 0) == 16);
    assert(pair[0] == 'p');
    assert(!text::is_space(pair.last())) by {
        if token.len() > 0 {
            assert(pair.last() == token.last());
            assert(text::is_hex_digit(token[token.len() - 1]));
        } else {
            assert(pair.last() == '=');
        }
    }
    text::lemma_trim_is_identity(pair);
    assert(pair.skip(17) =~= token);
}

/// A disabled account cannot be logged in to; any other can, by its name in capitals or not.
pub proof fn disabled_accounts_stay_closed(db: Accounts, username: Seq<char>, k: int)
    requires
        0 <= k < db.accounts@.len(),
        text::lower(db.accounts@[k].user.username@) == text::lower(username),
        forall|j: int|
            0 <= j < db.accounts@.len() && j != k ==> text::lower(
                (#[trigger] db.accounts@[j]).user.username@,
            ) != text::lower(username),
    ensures
        open_account(db, username) == if db.accounts@[k].user.disabled {
            None
        } else {
            Some(db.accounts@[k])
        },
{
    accounts::lemma_name_at(db.accounts@, username, 0);
}

/// An invite that was used, or has run out, or was never made, opens nothing.
pub proof fn used_and_old_invites_open_nothing(db: Accounts, token: Seq<char>, now: i64)
    ensures
        open_invite(db, token, now) matches Some(i) ==> 0 <= i < db.invites@.len()
            && db.invites@[i].token_hash@ == auth::stored_for(token) && db.invites@[i].used_at is None
            && now < db.invites@[i].expires_at,
        open_invite(db, token, now) is None ==> forall|i: int|
            0 <= i < db.invites@.len() && (#[trigger] db.invites@[i]).token_hash@
                == auth::stored_for(token) && (forall|j: int|
                0 <= j < i ==> (#[trigger] db.invites@[j]).token_hash@ != auth::stored_for(token))
                ==> db.invites@[i].used_at is Some || db.invites@[i].expires_at <= now,
{
    accounts::an_invite_is_found_by_its_token(db.invites@, auth::stored_for(token), 0);
    assert forall|i: int|
        open_invite(db, token, now) is None && 0 <= i < db.invites@.len() && (
        #[trigger] db.invites@[i]).token_hash@ == auth::stored_for(token) && (forall|j: int|
            0 <= j < i ==> (#[trigger] db.invites@[j]).token_hash@ != auth::stored_for(
                token,
            )) implies db.invites@[i].used_at is Some || db.invites@[i].expires_at <= now by {
        accounts::an_invite_is_found_by_its_token(db.invites@, auth::stored_for(token), i);
    }
}

/// A redeemed invite cannot be redeemed again. It makes one new account in the invited role, or
/// changes one password and ends the sessions of that user; all other accounts stay as they were.
pub proof fn an_invite_is_redeemed_once(
    before: Accounts,
    after: Accounts,
    i: int,
    username: Seq<char>,
    hash: Seq<char>,
    now: i64,
    id: i64,
    sessions: Seq<Session>,
    later: i64,
    k: int,
)
    requires
        0 <= i < before.invites@.len(),
        is_redeemed(
            before,
            i,
            username,
            hash,
            now,
            id,
            after.accounts@,
            sessions,
            after.invites@,
        ),
    ensures
        !accounts::is_usable(after.invites@[i], later),
        after.invites@.len() == before.invites@.len(),
        0 <= k < before.invites@.len() && k != i ==> after.invites@[k] == before.invites@[k],
        0 <= k < before.accounts@.len() ==> after.accounts@[k].user == before.accounts@[k].user,
        0 <= k < before.accounts@.len() && before.accounts@[k].user.id != id
            ==> after.accounts@[k] == before.accounts@[k],
        before.invites@[i].reset_user is None ==> after.accounts@.len() == before.accounts@.len()
            + 1 && after.accounts@.last().user.id == id && after.accounts@.last().user.username@
            == username && after.accounts@.last().user.role == before.invites@[i].role
            && !after.accounts@.last().user.disabled && after.accounts@.last().password_hash@ == hash
            && sessions == before.sessions@,
        before.invites@[i].reset_user matches Some(user) ==> after.accounts@.len()
            == before.accounts@.len() && id == user && forall|s: Session|
            #![trigger sessions.contains(s)]
            sessions.contains(s) <==> before.sessions@.contains(s) && s.user_id != user,
{
    if let Some(user) = before.invites@[i].reset_user {
        accounts::lemma_account_at(before.accounts@, user, 0);
        assert forall|s: Session| #![trigger sessions.contains(s)]
            sessions.contains(s) <==> before.sessions@.contains(s) && s.user_id != user by {
            lists::filtering_keeps_what_is_picked(
                before.sessions@,
                accounts::stays(user, None),
                s,
            );
        }
    }
}

/// A form is taken exactly where the password is given twice the same and is long enough, and
/// where the name, if one is asked for, is a name.
pub proof fn passwords_are_given_twice(form: RedeemForm, is_reset: bool, change: PasswordForm, right: bool)
    ensures
        redeem_trouble(form, is_reset) is None <==> form.password@ == form.confirm@ && (is_reset
            || accounts::is_username(text::trim(form.username@))) && accounts::is_password(
            form.password@,
        ),
        password_trouble(change, right) is None <==> right && change.password@ == change.confirm@
            && accounts::is_password(change.password@),
{
}

/// A changed password ends every other session of the user, and touches nobody else.
pub proof fn a_new_password_ends_the_other_sessions(
    before: Accounts,
    after: Accounts,
    id: i64,
    hash: Seq<char>,
    kept: Seq<u8>,
    session: Session,
    k: int,
)
    requires
        password_changed(before, after, id, hash, kept),
    ensures
        after.sessions@.contains(session) <==> before.sessions@.contains(session) && (
        session.user_id != id || session.token_hash@ == kept),
        after.accounts@.len() == before.accounts@.len(),
        0 <= k < before.accounts@.len() ==> after.accounts@[k].user == before.accounts@[k].user,
        0 <= k < before.accounts@.len() && before.accounts@[k].user.id != id
            ==> after.accounts@[k] == before.accounts@[k],
        exists|i: int|
            0 <= i < after.accounts@.len() && (#[trigger] after.accounts@[i]).user.id == id
                && after.accounts@[i].password_hash@ == hash,
{
    accounts::lemma_account_at(before.accounts@, id, 0);
    lists::filtering_keeps_what_is_picked(
        before.sessions@,
        accounts::stays(id, Some(kept)),
        session,
    );
    let i = accounts::account_at(before.accounts@, id, 0);
    assert(after.accounts@[i].user.id == id);
}

/// A login lasts thirty days.
pub proof fn a_login_lasts_thirty_days(
    before: Seq<Session>,
    after: Seq<Session>,
    user_id: i64,
    token: Seq<char>,
    now: i64,
)
    requires
        session_begun(before, after, user_id, token, now),
    ensures
        after.len() == before.len() + 1,
        after.last().expires_at - after.last().created_at == 30 * 24 * 60 * 60,
        after.last().user_id == user_id,
        forall|i: int| 0 <= i < before.len() ==> #[trigger] after[i] == before[i],
{
}

} // verus!
