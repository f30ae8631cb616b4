//! The admin's users and invites.

use vstd::prelude::*;

use crate::accounts::{
    self, AccountError, Accounts, Grant, Grants, Invite, InviteRecord, Permission, Role, User,
};
use crate::auth::{self, Header, Headers, INVITE_TTL};
use crate::config;
use crate::order;
use crate::text;
use crate::web::error::AppError;
use crate::web::queue;
use crate::web::views;
use crate::zone::Zone;

verus! {

#[derive(Debug)]
pub struct UsersPage {
    pub users: Vec<UserRow>,
    pub invites: Vec<InviteRow>,
    pub link: Option<LinkNotice>,
    pub notice: Option<&'static str>,
    pub error: Option<&'static str>,
}

#[derive(Debug, PartialEq, Eq)]
pub struct UserRow {
    pub id: i64,
    pub username: String,
    pub role: &'static str,
    pub is_admin: bool,
    pub disabled: bool,
    pub joined: String,
    pub is_me: bool,
    /// What can be granted, for members.
    pub permissions: Vec<PermissionBox>,
}

#[derive(Debug, PartialEq, Eq)]
pub struct PermissionBox {
    pub value: &'static str,
    pub label: &'static str,
    pub granted: bool,
}

#[derive(Debug, PartialEq, Eq)]
pub struct InviteRow {
    pub id: i64,
    pub kind: String,
    pub expires: String,
}

#[derive(Debug, PartialEq, Eq)]
pub struct LinkNotice {
    pub what: String,
    pub url: String,
}

// ---------------------------------------------------------------------------------------------
// Outcomes
// ---------------------------------------------------------------------------------------------

/// Outcomes are passed as fixed codes rather than free text, so a crafted link cannot make
/// the page display a message of the sender's choosing.
#[derive(Debug, PartialEq, Eq)]
pub struct Outcome {
    pub done: Option<String>,
    pub problem: Option<String>,
}

pub open spec fn done_text(code: Seq<char>) -> Option<Seq<char>> {
    if code == "role"@ {
        Some("Role changed."@)
    } else if code == "disabled"@ {
        Some("Account disabled and logged out everywhere."@)
    } else if code == "enabled"@ {
        Some("Account enabled."@)
    } else if code == "permissions"@ {
        Some("Permissions changed."@)
    } else if code == "revoked"@ {
        Some("Link revoked."@)
    } else {
        None
    }
}

pub fn done_message(code: &str) -> (r: Option<&'static str>)
    ensures
        queue::opt_str(r) == done_text(code@),
{
    if text::same(code, "role") {
        Some("Role changed.")
    } else if text::same(code, "disabled") {
        Some("Account disabled and logged out everywhere.")
    } else if text::same(code, "enabled") {
        Some("Account enabled.")
    } else if text::same(code, "permissions") {
        Some("Permissions changed.")
    } else if text::same(code, "revoked") {
        Some("Link revoked.")
    } else {
        None
    }
}

pub open spec fn problem_text(code: Seq<char>) -> Option<Seq<char>> {
    if code == "last-admin"@ {
        Some("The last active admin cannot be demoted or disabled."@)
    } else if code == "admin-role"@ {
        Some("Admins cannot be made members."@)
    } else if code == "self-disable"@ {
        Some("You cannot disable your own account."@)
    } else {
        None
    }
}

pub fn problem_message(code: &str) -> (r: Option<&'static str>)
    ensures
        queue::opt_str(r) == problem_text(code@),
{
    if text::same(code, "last-admin") {
        Some("The last active admin cannot be demoted or disabled.")
    } else if text::same(code, "admin-role") {
        Some("Admins cannot be made members.")
    } else if text::same(code, "self-disable") {
        Some("You cannot disable your own account.")
    } else {
        None
    }
}

// ---------------------------------------------------------------------------------------------
// The page
// ---------------------------------------------------------------------------------------------

pub open spec fn are_boxes(boxes: Seq<PermissionBox>, user: User, grants: Seq<Grant>) -> bool {
    if user.role == Role::Admin {
        boxes.len() == 0
    } else {
        boxes.len() == 2 && forall|i: int|
            0 <= i < 2 ==> (#[trigger] boxes[i]).value@ == Permission::ALL[i].name()
                && boxes[i].label@ == Permission::ALL[i].title() && boxes[i].granted
                == accounts::is_granted(grants, user.id, Permission::ALL[i])
    }
}

fn permission_boxes(user: &User, grants: &Grants) -> (r: Vec<PermissionBox>)
    ensures
        are_boxes(r@, *user, grants.list@),
{
    let mut boxes: Vec<PermissionBox> = Vec::new();
    if user.is_admin() {
        return boxes;
    }
    let mut i: usize = 0;
    while i < 2
        invariant
            i <= 2,
            user.role != Role::Admin,
            boxes@.len() == i,
            forall|k: int|
                0 <= k < i ==> (#[trigger] boxes@[k]).value@ == Permission::ALL[k].name()
                    && boxes@[k].label@ == Permission::ALL[k].title() && boxes@[k].granted
                    == accounts::is_granted(grants.list@, user.id, Permission::ALL[k]),
        decreases 2 - i,
    {
        let permission = Permission::ALL[i];
        boxes.push(
            PermissionBox {
                value: permission.as_str(),
                label: permission.label(),
                granted: accounts::has_permission(grants, user, permission),
            },
        );
        i += 1;
    }
    boxes
}

impl UserRow {
    pub open spec fn shows(self, user: User, grants: Seq<Grant>, admin: User, zone: Zone) -> bool {
        &&& self.id == user.id
        &&& self.username@ == user.username@
        &&& self.role@ == user.role.name()
        &&& self.is_admin == (user.role == Role::Admin)
        &&& self.disabled == user.disabled
        &&& self.joined@ == views::time_text(user.created_at as int, zone)
        &&& self.is_me == (user.id == admin.id)
        &&& are_boxes(self.permissions@, user, grants)
    }
}

impl InviteRow {
    pub open spec fn shows(self, invite: Invite, zone: Zone) -> bool {
        &&& self.id == invite.id
        &&& self.kind@ == match invite.reset_user {
            Some((_, username)) => "Password reset for "@ + username@,
            None => "Invite as "@ + invite.role.name(),
        }
        &&& self.expires@ == views::time_text(invite.expires_at as int, zone)
    }
}

impl UsersPage {
    /// Everyone by name, and the invites that can still be redeemed, the newest first.
    pub open spec fn shows(
        self,
        db: Accounts,
        grants: Seq<Grant>,
        admin: User,
        zone: Zone,
        now: i64,
    ) -> bool {
        let users = order::sorted(
            db.accounts@.map_values(|a: accounts::Account| a.user),
            accounts::by_name(),
        );
        let invites = order::sorted(
            db.invites@.filter(accounts::still_usable(now)).map_values(
                |record: InviteRecord| accounts::shown_invite(db, record),
            ),
            accounts::newest_first(),
        );
        &&& self.users@.len() == users.len()
        &&& forall|i: int|
            0 <= i < users.len() ==> (#[trigger] self.users@[i]).shows(users[i], grants, admin, zone)
        &&& self.invites@.len() == invites.len()
        &&& forall|i: int|
            0 <= i < invites.len() ==> (#[trigger] self.invites@[i]).shows(invites[i], zone)
    }
}

fn page(
    db: &Accounts,
    grants: &Grants,
    admin: &User,
    zone: &Zone,
    now: i64,
    link: Option<LinkNotice>,
    notice: Option<&'static str>,
    error: Option<&'static str>,
) -> (r: UsersPage)
    ensures
        r.shows(*db, grants.list@, *admin, *zone, now),
        r.link == link,
        r.notice == notice,
        r.error == error,
{
    let all = accounts::users(db);
    let mut users: Vec<UserRow> = Vec::new();
    let mut i: usize = 0;
    while i < all.len()
        invariant
            i <= all@.len(),
            users@.len() == i,
            forall|k: int| 0 <= k < i ==> (#[trigger] users@[k]).shows(
                    all@[k],
                    grants.list@,
                    *admin,
                    *zone,
                ),
        decreases all.len() - i,
    {
        let user = &all[i];
        users.push(
            UserRow {
                id: user.id,
                username: user.username.clone(),
                role: user.role.as_str(),
                is_admin: user.is_admin(),
                disabled: user.disabled,
                joined: views::format_time(user.created_at, zone),
                is_me: user.id == admin.id,
                permissions: permission_boxes(user, grants),
            },
        );
        i += 1;
    }
    let pending = accounts::pending_invites(db, now);
    let mut invites: Vec<InviteRow> = Vec::new();
    let mut k: usize = 0;
    while k < pending.len()
        invariant
            k <= pending@.len(),
            invites@.len() == k,
            forall|j: int| 0 <= j < k ==> (#[trigger] invites@[j]).shows(pending@[j], *zone),
        decreases pending.len() - k,
    {
        let invite = &pending[k];
        let kind = match &invite.reset_user {
            Some((_, username)) => {
                let mut out = "Password reset for ".to_string();
                out.append(username.as_str());
                out
            },
            None => {
                let mut out = "Invite as ".to_string();
                out.append(invite.role.as_str());
                out
            },
        };
        invites.push(
            InviteRow { id: invite.id, kind, expires: views::format_time(invite.expires_at, zone) },
        );
        k += 1;
    }
    UsersPage { users, invites, link, notice, error }
}

pub fn users_page(
    db: &Accounts,
    grants: &Grants,
    admin: &User,
    outcome: &Outcome,
    zone: &Zone,
    now: i64,
) -> (r: UsersPage)
    ensures
        r.shows(*db, grants.list@, *admin, *zone, now),
        r.link is None,
        queue::opt_str(r.notice) == match outcome.done {
            Some(code) => done_text(code@),
            None => None,
        },
        queue::opt_str(r.error) == match outcome.problem {
            Some(code) => problem_text(code@),
            None => None,
        },
{
    let notice = match &outcome.done {
        Some(code) => done_message(code.as_str()),
        None => None,
    };
    let error = match &outcome.problem {
        Some(code) => problem_message(code.as_str()),
        None => None,
    };
    page(db, grants, admin, zone, now, None, notice, error)
}

// ---------------------------------------------------------------------------------------------
// Roles and disabled accounts
// ---------------------------------------------------------------------------------------------

#[derive(Debug, PartialEq, Eq)]
pub struct RoleForm {
    pub role: String,
}

pub open spec fn unknown_role(raw: Seq<char>) -> Seq<char> {
    "unknown role "@ + config::quoted(raw)
}

fn read_role(raw: &str) -> (r: Result<Role, AppError>)
    ensures
        match Role::named(raw@) {
            Some(role) => r == Ok::<Role, AppError>(role),
            None => r matches Err(error) && error.is_bad_request(unknown_role(raw@)),
        },
{
    match Role::parse(raw) {
        Some(role) => Ok(role),
        None => {
            let mut out = "unknown role ".to_string();
            config::push_quoted(&mut out, raw);
            Err(AppError::BadRequest(out))
        },
    }
}

/// Where to go after a role was changed. Members can be made admins, but admins stay admins.
pub fn set_role(db: &mut Accounts, id: i64, form: &RoleForm) -> (r: Result<&'static str, AppError>)
    ensures
        old(db).well_formed() ==> final(db).well_formed(),
        accounts::active_admins(old(db).accounts@) >= 1 ==> accounts::active_admins(
            final(db).accounts@,
        ) >= 1,
        final(db).sessions@ == old(db).sessions@,
        final(db).invites@ == old(db).invites@,
        ({
            let before = old(db).accounts@;
            let i = accounts::account_at(before, id, 0);
            match Role::named(form.role@) {
                None => r matches Err(error) && error.is_bad_request(unknown_role(form.role@))
                    && final(db).accounts@ == before,
                Some(role) => if i >= before.len() {
                    r == Err::<&'static str, AppError>(AppError::NotFound) && final(db).accounts@
                        == before
                } else if before[i].user.role == Role::Admin && role != Role::Admin {
                    r matches Ok(next) && next@ == "/admin/users?problem=admin-role"@ && final(
                        db).accounts@ == before
                } else {
                    &&& r matches Ok(next) && next@ == "/admin/users?done=role"@
                    &&& final(db).accounts@ == before.update(
                        i,
                        accounts::Account { user: User { role, ..before[i].user }, ..before[i] },
                    )
                },
            }
        }),
{
    let role = match read_role(form.role.as_str()) {
        Ok(role) => role,
        Err(error) => {
            return Err(error);
        },
    };
    if let Some(target) = accounts::user(db, id) {
        if target.is_admin() && role != Role::Admin {
            return Ok("/admin/users?problem=admin-role");
        }
    }
    match accounts::set_role(db, id, role) {
        Ok(()) => Ok("/admin/users?done=role"),
        Err(AccountError::LastAdmin) => Ok("/admin/users?problem=last-admin"),
        Err(error) => Err(AppError::from_account(error)),
    }
}

#[derive(Debug, PartialEq, Eq)]
pub struct DisabledForm {
    pub disabled: bool,
}

/// Where to go after an account was disabled or enabled. Nobody disables their own, and the last
/// active admin cannot be disabled.
pub fn set_disabled(db: &mut Accounts, admin: &User, id: i64, form: &DisabledForm) -> (r: Result<
    &'static str,
    AppError,
>)
    ensures
        old(db).well_formed() ==> final(db).well_formed(),
        accounts::active_admins(old(db).accounts@) >= 1 ==> accounts::active_admins(
            final(db).accounts@,
        ) >= 1,
        final(db).invites@ == old(db).invites@,
        ({
            let before = old(db).accounts@;
            let i = accounts::account_at(before, id, 0);
            if form.disabled && id == admin.id {
                r matches Ok(next) && next@ == "/admin/users?problem=self-disable"@ && final(db).unchanged(*old(db))
            } else if i >= before.len() {
                r == Err::<&'static str, AppError>(AppError::NotFound) && final(db).unchanged(
                    *old(db),
                )
            } else if form.disabled && accounts::is_active_admin(before[i])
                && accounts::active_admins(before) <= 1 {
                r matches Ok(next) && next@ == "/admin/users?problem=last-admin"@ && final(db).unchanged(*old(db))
            } else {
                &&& r matches Ok(next) && next@ == if form.disabled {
                    "/admin/users?done=disabled"@
                } else {
                    "/admin/users?done=enabled"@
                }
                &&& final(db).accounts@ == before.update(
                    i,
                    accounts::Account {
                        user: User { disabled: form.disabled, ..before[i].user },
                        ..before[i]
                    },
                )
                &&& final(db).sessions@ == if form.disabled {
                    old(db).sessions@.filter(accounts::stays(id, None))
                } else {
                    old(db).sessions@
                }
            }
        }),
{
    if form.disabled && id == admin.id {
        return Ok("/admin/users?problem=self-disable");
    }
    match accounts::set_disabled(db, id, form.disabled) {
        Ok(()) => if form.disabled {
            Ok("/admin/users?done=disabled")
        } else {
            Ok("/admin/users?done=enabled")
        },
        Err(AccountError::LastAdmin) => Ok("/admin/users?problem=last-admin"),
        Err(error) => Err(AppError::from_account(error)),
    }
}

// ---------------------------------------------------------------------------------------------
// Permissions
// ---------------------------------------------------------------------------------------------

/// The permissions that are ticked, by name.
#[derive(Debug, PartialEq, Eq)]
pub struct PermissionsForm {
    pub permission: Vec<String>,
}

/// The first of the names from position `i` on that names no permission.
pub open spec fn unknown_at(names: Seq<String>, i: int) -> Option<Seq<char>>
    decreases names.len() - i,
{
    if i >= names.len() {
        None
    } else if Permission::named(names[i]@) is None {
        Some(names[i]@)
    } else {
        unknown_at(names, i + 1)
    }
}

pub open spec fn ticked(names: Seq<String>) -> Seq<Permission> {
    names.map_values(|name: String| Permission::named(name@)->0)
}

pub open spec fn unknown_permission(raw: Seq<char>) -> Seq<char> {
    "unknown permission "@ + config::quoted(raw)
}

/// Where to go after a user's permissions were set to those that are ticked.
pub fn set_permissions(
    db: &Accounts,
    grants: &mut Grants,
    admin: &User,
    id: i64,
    form: &PermissionsForm,
    now: i64,
) -> (r: Result<&'static str, AppError>)
    ensures
        match unknown_at(form.permission@, 0) {
            Some(name) => r matches Err(error) && error.is_bad_request(unknown_permission(name))
                && final(grants).list@ == old(grants).list@,
            None => if accounts::account_at(db.accounts@, id, 0) >= db.accounts@.len() {
                r == Err::<&'static str, AppError>(AppError::NotFound) && final(grants).list@
                    == old(grants).list@
            } else {
                &&& r matches Ok(next) && next@ == "/admin/users?done=permissions"@
                &&& final(grants).list@ == old(grants).list@.filter(accounts::of_others(id))
                    + accounts::granted(id, ticked(form.permission@), admin.id, now)
            },
        },
{
    let names = &form.permission;
    let mut permissions: Vec<Permission> = Vec::new();
    let mut i: usize = 0;
    while i < names.len()
        invariant
            i <= names@.len(),
            permissions@.len() == i,
            *grants == *old(grants),
            *names == form.permission,
            unknown_at(names@, 0) == unknown_at(names@, i as int),
            forall|k: int|
                0 <= k < i ==> #[trigger] permissions@[k] == Permission::named(names@[k]@)->0,
        decreases names.len() - i,
    {
        match Permission::parse(names[i].as_str()) {
            Some(permission) => permissions.push(permission),
            None => {
                let mut out = "unknown permission ".to_string();
                config::push_quoted(&mut out, names[i].as_str());
                return Err(AppError::BadRequest(out));
            },
        }
        i += 1;
    }
    if accounts::user(db, id).is_none() {
        return Err(AppError::NotFound);
    }
    assert(permissions@ =~= ticked(names@));
    accounts::set_permissions(grants, id, permissions.as_slice(), admin.id, now);
    Ok("/admin/users?done=permissions")
}

// ---------------------------------------------------------------------------------------------
// Links
// ---------------------------------------------------------------------------------------------

#[derive(Debug, PartialEq, Eq)]
pub struct InviteForm {
    pub role: String,
}

/// The address that a link with the given token has for the browser that asked for it.
pub open spec fn link_text(list: Seq<Header>, trust_proxy: bool, token: Seq<char>) -> Seq<char> {
    let scheme = if auth::came_by_https(list, trust_proxy) {
        "https"@
    } else {
        "http"@
    };
    let host = match auth::addressed_host(list, trust_proxy) {
        Some(host) => host,
        None => "localhost"@,
    };
    scheme + "://"@ + host + "/invite/"@ + token
}

/// The invite that is put on record for a token, for a week.
pub open spec fn is_issued(
    invite: InviteRecord,
    before: Seq<InviteRecord>,
    token: Seq<char>,
    role: Role,
    reset_user: Option<i64>,
    created_by: i64,
    now: i64,
) -> bool {
    &&& invite.id == accounts::next_invite_id(before)
    &&& invite.token_hash@ == auth::stored_for(token)
    &&& invite.role == role
    &&& invite.reset_user == reset_user
    &&& invite.created_by == created_by
    &&& invite.created_at == now
    &&& invite.expires_at == now + INVITE_TTL
    &&& invite.used_at is None
}

/// Puts an invite on record under the hash of a token, and makes the link that redeems it. It
/// fails only where the hash is already in use.
pub fn issue_link(
    db: &mut Accounts,
    headers: &Headers,
    trust_proxy: bool,
    admin: &User,
    role: Role,
    reset_user: Option<i64>,
    token: &str,
    now: i64,
) -> (r: Result<String, AppError>)
    requires
        now + INVITE_TTL <= i64::MAX,
        accounts::next_invite_id(old(db).invites@) <= i64::MAX,
    ensures
        old(db).well_formed() ==> final(db).well_formed(),
        final(db).accounts@ == old(db).accounts@,
        final(db).sessions@ == old(db).sessions@,
        ({
            let before = old(db).invites@;
            if accounts::invite_at(before, auth::stored_for(token@), 0) < before.len() {
                r matches Err(error) && error is Internal && final(db).invites@ == before
            } else {
                let issued = final(db).invites@.last();
                &&& r matches Ok(url) && url@ == link_text(headers.list@, trust_proxy, token@)
                &&& final(db).invites@ == before.push(issued)
                &&& is_issued(issued, before, token@, role, reset_user, admin.id, now)
            }
        }),
{
    let token_hash = auth::token_hash(token);
    let expires: i64 = now + INVITE_TTL as i64;
    match accounts::create_invite(db, token_hash, role, reset_user, admin.id, now, expires) {
        Ok(()) => {},
        Err(error) => {
            return Err(AppError::from_account(error));
        },
    }
    let mut url = if auth::is_https(headers, trust_proxy) {
        "https".to_string()
    } else {
        "http".to_string()
    };
    url.append("://");
    match auth::request_host(headers, trust_proxy) {
        Some(host) => url.append(host.as_str()),
        None => url.append("localhost"),
    }
    url.append("/invite/");
    url.append(token);
    Ok(url)
}

/// A link was issued for a token of 64 characters, and the page shows it.
pub open spec fn shows_link(
    page: UsersPage,
    before: Accounts,
    after: Accounts,
    list: Seq<Header>,
    trust_proxy: bool,
    admin: User,
    role: Role,
    reset_user: Option<i64>,
    what: Seq<char>,
    token: Seq<char>,
    now: i64,
) -> bool {
    let issued = after.invites@.last();
    &&& token.len() == 64
    &&& after.invites@ == before.invites@.push(issued)
    &&& is_issued(issued, before.invites@, token, role, reset_user, admin.id, now)
    &&& page.link matches Some(link) && link.what@ == what && link.url@ == link_text(
        list,
        trust_proxy,
        token,
    )
    &&& page.notice is None
    &&& page.error is None
}

fn new_link(
    db: &mut Accounts,
    grants: &Grants,
    headers: &Headers,
    trust_proxy: bool,
    admin: &User,
    role: Role,
    reset_user: Option<i64>,
    what: String,
    zone: &Zone,
    now: i64,
) -> (r: Result<UsersPage, AppError>)
    requires
        now + INVITE_TTL <= i64::MAX,
        accounts::next_invite_id(old(db).invites@) <= i64::MAX,
    ensures
        old(db).well_formed() ==> final(db).well_formed(),
        final(db).accounts@ == old(db).accounts@,
        final(db).sessions@ == old(db).sessions@,
        match r {
            Ok(page) => page.shows(*final(db), grants.list@, *admin, *zone, now) && exists|token: Seq<char>|
                #[trigger] shows_link(
                    page,
                    *old(db),
                    *final(db),
                    headers.list@,
                    trust_proxy,
                    *admin,
                    role,
                    reset_user,
                    what@,
                    token,
                    now,
                ),
            Err(error) => error is Internal && final(db).invites@ == old(db).invites@,
        },
{
    let token = match auth::new_token() {
        Ok((token, _)) => token,
        Err(said) => {
            return Err(AppError::Internal(said));
        },
    };
    let url = match issue_link(
        db,
        headers,
        trust_proxy,
        admin,
        role,
        reset_user,
        token.as_str(),
        now,
    ) {
        Ok(url) => url,
        Err(error) => {
            return Err(error);
        },
    };
    let shown = page(db, grants, admin, zone, now, Some(LinkNotice { what, url }), None, None);
    assert(shows_link(
        shown,
        *old(db),
        *db,
        headers.list@,
        trust_proxy,
        *admin,
        role,
        reset_user,
        what@,
        token@,
        now,
    ));
    Ok(shown)
}

pub open spec fn invite_notice(role: Role) -> Seq<char> {
    "Invite link for a new "@ + role.name() + "."@
}

/// Shown in the answer to the form rather than redirected to: the link is shown exactly once
/// and must not end up in a URL. It fails where no randomness can be had or the token is in use.
pub fn create_invite(
    db: &mut Accounts,
    grants: &Grants,
    headers: &Headers,
    trust_proxy: bool,
    admin: &User,
    form: &InviteForm,
    zone: &Zone,
    now: i64,
) -> (r: Result<UsersPage, AppError>)
    requires
        now + INVITE_TTL <= i64::MAX,
        accounts::next_invite_id(old(db).invites@) <= i64::MAX,
    ensures
        old(db).well_formed() ==> final(db).well_formed(),
        final(db).accounts@ == old(db).accounts@,
        final(db).sessions@ == old(db).sessions@,
        match Role::named(form.role@) {
            None => r matches Err(error) && error.is_bad_request(unknown_role(form.role@))
                && final(db).invites@ == old(db).invites@,
            Some(role) => match r {
                Ok(page) => page.shows(*final(db), grants.list@, *admin, *zone, now) && exists|token: Seq<char>|
                    #[trigger] shows_link(
                        page,
                        *old(db),
                        *final(db),
                        headers.list@,
                        trust_proxy,
                        *admin,
                        role,
                        None,
                        invite_notice(role),
                        token,
                        now,
                    ),
                Err(error) => error is Internal && final(db).invites@ == old(db).invites@,
            },
        },
{
    let role = match read_role(form.role.as_str()) {
        Ok(role) => role,
        Err(error) => {
            return Err(error);
        },
    };
    let mut what = "Invite link for a new ".to_string();
    what.append(role.as_str());
    what.append(".");
    assert(what@ =~= invite_notice(role));
    new_link(db, grants, headers, trust_proxy, admin, role, None, what, zone, now)
}

pub open spec fn reset_notice(username: Seq<char>) -> Seq<char> {
    "Password reset link for "@ + username + "."@
}

/// A link by which a user sets a new password.
pub fn reset_link(
    db: &mut Accounts,
    grants: &Grants,
    headers: &Headers,
    trust_proxy: bool,
    admin: &User,
    id: i64,
    zone: &Zone,
    now: i64,
) -> (r: Result<UsersPage, AppError>)
    requires
        now + INVITE_TTL <= i64::MAX,
        accounts::next_invite_id(old(db).invites@) <= i64::MAX,
    ensures
        old(db).well_formed() ==> final(db).well_formed(),
        final(db).accounts@ == old(db).accounts@,
        final(db).sessions@ == old(db).sessions@,
        ({
            let i = accounts::account_at(old(db).accounts@, id, 0);
            let target = old(db).accounts@[i].user;
            if i >= old(db).accounts@.len() {
                r == Err::<UsersPage, AppError>(AppError::NotFound) && final(db).invites@ == old(db).invites@
            } else {
                match r {
                    Ok(page) => page.shows(*final(db), grants.list@, *admin, *zone, now) && exists|
                        token: Seq<char>,
                    |
                        #[trigger] shows_link(
                            page,
                            *old(db),
                            *final(db),
                            headers.list@,
                            trust_proxy,
                            *admin,
                            target.role,
                            Some(target.id),
                            reset_notice(target.username@),
                            token,
                            now,
                        ),
                    Err(error) => error is Internal && final(db).invites@ == old(db).invites@,
                }
            }
        }),
{
    let target = match accounts::user(db, id) {
        Some(target) => target,
        None => {
            return Err(AppError::NotFound);
        },
    };
    let mut what = "Password reset link for ".to_string();
    what.append(target.username.as_str());
    what.append(".");
    assert(what@ =~= reset_notice(target.username@));
    new_link(db, grants, headers, trust_proxy, admin, target.role, Some(target.id), what, zone, now)
}

pub fn revoke_invite(db: &mut Accounts, id: i64) -> (r: &'static str)
    ensures
        old(db).well_formed() ==> final(db).well_formed(),
        final(db).accounts@ == old(db).accounts@,
        final(db).sessions@ == old(db).sessions@,
        final(db).invites@ == old(db).invites@.filter(accounts::with_other_id(id)),
        r@ == "/admin/users?done=revoked"@,
{
    accounts::revoke_invite(db, id);
    "/admin/users?done=revoked"
}

/// A link lasts a week and has not been used.
pub proof fn a_link_lasts_a_week(
    invite: InviteRecord,
    before: Seq<InviteRecord>,
    token: Seq<char>,
    role: Role,
    reset_user: Option<i64>,
    created_by: i64,
    now: i64,
    later: i64,
)
    requires
        is_issued(invite, before, token, role, reset_user, created_by, now),
    ensures
        accounts::is_usable(invite, later) <==> later < now + 7 * 24 * 60 * 60,
        invite.role == role,
        invite.reset_user == reset_user,
        invite.token_hash@ == auth::stored_for(token),
        forall|i: int| 0 <= i < before.len() ==> (#[trigger] before[i]).id != invite.id,
{
    assert forall|i: int| 0 <= i < before.len() implies (#[trigger] before[i]).id != invite.id by {
        accounts::new_numbers_are_above_all_others(Seq::<accounts::Account>::empty(), before, i);
    }
}

/// Permissions are changed to what was ticked, if every name is that of a permission; else the
/// first that is not is told of.
pub proof fn unknown_permissions_are_refused(names: Seq<String>, k: int)
    ensures
        match unknown_at(names, 0) {
            Some(name) => exists|i: int|
                0 <= i < names.len() && (#[trigger] names[i])@ == name && Permission::named(
                    name,
                ) is None && forall|j: int|
                    0 <= j < i ==> Permission::named((#[trigger] names[j])@) is Some,
            None => 0 <= k < names.len() ==> Permission::named(names[k]@) == Some(ticked(names)[k]),
        },
{
    lemma_unknown(names, 0, k);
}

proof fn lemma_unknown(names: Seq<String>, from: int, k: int)
    requires
        0 <= from <= names.len(),
    ensures
        match unknown_at(names, from) {
            Some(name) => exists|i: int|
                from <= i < names.len() && (#[trigger] names[i])@ == name && Permission::named(
                    name,
                ) is None && forall|j: int|
                    from <= j < i ==> Permission::named((#[trigger] names[j])@) is Some,
            None => from <= k < names.len() ==> Permission::named(names[k]@) is Some,
        },
    decreases names.len() - from,
{
    if from < names.len() && Permission::named(names[from]@) is Some {
        lemma_unknown(names, from + 1, k);
        if let Some(name) = unknown_at(names, from) {
            let i = choose|i: int|
                from + 1 <= i < names.len() && (#[trigger] names[i])@ == name && Permission::named(
                    name,
                ) is None && forall|j: int|
                    from + 1 <= j < i ==> Permission::named((#[trigger] names[j])@) is Some;
            assert(names[i]@ == name);
        }
    }
}

} // verus!
