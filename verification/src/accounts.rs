//! Users, sessions and invitations. Functions take timestamps rather than reading the clock,
//! so expiry is testable.

use vstd::prelude::*;

use crate::lists;
use crate::order;
use crate::text;

verus! {

#[derive(Debug, Clone, Copy, PartialEq, Eq, Structural)]
pub enum Role {
    Admin,
    Member,
}

impl Role {
    pub open spec fn name(self) -> Seq<char> {
        match self {
            Role::Admin => "admin"@,
            Role::Member => "member"@,
        }
    }

    pub open spec fn named(raw: Seq<char>) -> Option<Role> {
        if raw == "admin"@ {
            Some(Role::Admin)
        } else if raw == "member"@ {
            Some(Role::Member)
        } else {
            None
        }
    }

    pub fn as_str(self) -> (r: &'static str)
        ensures
            r@ == self.name(),
    {
        match self {
            Role::Admin => "admin",
            Role::Member => "member",
        }
    }

    pub fn parse(raw: &str) -> (r: Option<Role>)
        ensures
            r == Role::named(raw@),
    {
        if text::same(raw, "admin") {
            Some(Role::Admin)
        } else if text::same(raw, "member") {
            Some(Role::Member)
        } else {
            None
        }
    }
}

/// A role is read back from its name, and from nothing else.
pub proof fn role_names_round_trip(role: Role, raw: Seq<char>)
    ensures
        Role::named(role.name()) == Some(role),
        Role::named(raw) == Some(role) ==> raw == role.name(),
{
    reveal_strlit("admin");
    reveal_strlit("member");
    assert("admin"@.len() != "member"@.len());
}

#[derive(Debug, PartialEq, Eq)]
pub struct User {
    pub id: i64,
    pub username: String,
    pub role: Role,
    pub disabled: bool,
    pub created_at: i64,
}

impl Clone for User {
    fn clone(&self) -> (r: User)
        ensures
            r == *self,
    {
        User {
            id: self.id,
            username: self.username.clone(),
            role: self.role,
            disabled: self.disabled,
            created_at: self.created_at,
        }
    }
}

impl User {
    pub fn is_admin(&self) -> (r: bool)
        ensures
            r == (self.role == Role::Admin),
    {
        self.role == Role::Admin
    }
}

/// A user with the hash of their password.
#[derive(Debug)]
pub struct Account {
    pub user: User,
    pub password_hash: String,
}

/// A login, kept under the hash of its bearer token.
#[derive(Debug)]
pub struct Session {
    pub token_hash: Vec<u8>,
    pub user_id: i64,
    pub created_at: i64,
    pub expires_at: i64,
}

/// A link that creates an account or resets a password, kept under the hash of its token.
#[derive(Debug)]
pub struct InviteRecord {
    pub id: i64,
    pub token_hash: Vec<u8>,
    pub role: Role,
    pub reset_user: Option<i64>,
    pub created_by: i64,
    pub created_at: i64,
    pub expires_at: i64,
    pub used_at: Option<i64>,
}

#[derive(Debug, Clone, PartialEq, Eq)]
pub struct Invite {
    pub id: i64,
    pub role: Role,
    /// Set for a password reset link: the account whose password it replaces.
    pub reset_user: Option<(i64, String)>,
    pub created_at: i64,
    pub expires_at: i64,
}

#[derive(Debug, Clone, Copy, PartialEq, Eq, Structural)]
pub enum AccountError {
    UsernameTaken,
    LastAdmin,
    InviteInvalid,
    NotFound,
    /// The token hash is already in use.
    Db,
}

impl AccountError {
    pub open spec fn text(self) -> Seq<char> {
        match self {
            AccountError::UsernameTaken => "that username is taken"@,
            AccountError::LastAdmin => "the last active admin cannot be demoted or disabled"@,
            AccountError::InviteInvalid => "this link is invalid, expired or already used"@,
            AccountError::NotFound => "no such user"@,
            AccountError::Db => "database: UNIQUE constraint failed"@,
        }
    }

    pub fn message(&self) -> (r: &'static str)
        ensures
            r@ == self.text(),
    {
        match self {
            AccountError::UsernameTaken => "that username is taken",
            AccountError::LastAdmin => "the last active admin cannot be demoted or disabled",
            AccountError::InviteInvalid => "this link is invalid, expired or already used",
            AccountError::NotFound => "no such user",
            AccountError::Db => "database: UNIQUE constraint failed",
        }
    }
}

pub const USERNAME_MAX: usize = 32;

pub const PASSWORD_MIN: usize = 10;

/// Argon2 cost does not depend on length, but an unbounded input is still an unbounded
/// amount of work per request.
pub const PASSWORD_MAX: usize = 256;

pub open spec fn is_username_char(c: char) -> bool {
    ||| 'a' <= c && c <= 'z'
    ||| 'A' <= c && c <= 'Z'
    ||| text::is_digit(c)
    ||| c == '_'
    ||| c == '-'
    ||| c == '.'
}

/// 1 to 32 letters, digits, dots, dashes or underscores.
pub open spec fn is_username(s: Seq<char>) -> bool {
    1 <= s.len() <= USERNAME_MAX && forall|i: int|
        0 <= i < s.len() ==> is_username_char(#[trigger] s[i])
}

/// At least 10 characters, and at most 256 bytes.
pub open spec fn is_password(s: Seq<char>) -> bool {
    PASSWORD_MIN <= s.len() && vstd::utf8::encode_utf8(s).len() <= PASSWORD_MAX
}

pub fn validate_username(username: &str) -> (r: Result<(), String>)
    ensures
        r is Ok <==> is_username(username@),
        r matches Err(message) ==> message@
            == "usernames are 1 to 32 letters, digits, dots, dashes or underscores"@,
{
    let all = text::chars(username);
    let mut valid: bool = true;
    let mut i: usize = 0;
    while i < all.len()
        invariant
            i <= all@.len(),
            valid <==> forall|k: int| 0 <= k < i ==> is_username_char(#[trigger] all@[k]),
        decreases all.len() - i,
    {
        let c = all[i];
        if !(('a' <= c && c <= 'z') || ('A' <= c && c <= 'Z') || text::char_is_digit(c) || c == '_'
            || c == '-' || c == '.') {
            valid = false;
            assert(!is_username_char(all@[i as int]));
        }
        i += 1;
    }
    // Every character that may occur takes one byte, so counting characters is counting bytes.
    if all.len() == 0 || all.len() > USERNAME_MAX || !valid {
        return Err(
            "usernames are 1 to 32 letters, digits, dots, dashes or underscores".to_string(),
        );
    }
    Ok(())
}

pub fn validate_password(password: &str) -> (r: Result<(), String>)
    ensures
        r is Ok <==> is_password(password@),
        r matches Err(message) ==> message@
            == "passwords need at least 10 characters (and at most 256 bytes)"@,
{
    let count: usize = password.unicode_len();
    if count < PASSWORD_MIN || password.as_bytes().len() > PASSWORD_MAX {
        return Err("passwords need at least 10 characters (and at most 256 bytes)".to_string());
    }
    Ok(())
}

pub fn user_from(id: i64, username: String, role: &str, disabled: i64, created_at: i64) -> (r: User)
    ensures
        r == (User {
            id,
            username,
            role: match Role::named(role@) {
                Some(role) => role,
                None => Role::Member,
            },
            disabled: disabled != 0,
            created_at,
        }),
{
    let role = match Role::parse(role) {
        Some(role) => role,
        None => Role::Member,
    };
    User { id, username, role, disabled: disabled != 0, created_at }
}

// ---------------------------------------------------------------------------------------------
// The tables
// ---------------------------------------------------------------------------------------------

/// Everything stored about who may log in.
#[derive(Debug)]
pub struct Accounts {
    pub accounts: Vec<Account>,
    pub sessions: Vec<Session>,
    pub invites: Vec<InviteRecord>,
}

/// The first account from position `i` on with the given id, or the number of accounts.
pub open spec fn account_at(accounts: Seq<Account>, id: i64, i: int) -> int
    decreases accounts.len() - i,
{
    if i >= accounts.len() {
        accounts.len() as int
    } else if accounts[i].user.id == id {
        i
    } else {
        account_at(accounts, id, i + 1)
    }
}

/// The first account from position `i` on with the given name, in any case of its letters.
pub open spec fn name_at(accounts: Seq<Account>, name: Seq<char>, i: int) -> int
    decreases accounts.len() - i,
{
    if i >= accounts.len() {
        accounts.len() as int
    } else if text::lower(accounts[i].user.username@) == text::lower(name) {
        i
    } else {
        name_at(accounts, name, i + 1)
    }
}

pub open spec fn is_active_admin(account: Account) -> bool {
    account.user.role == Role::Admin && !account.user.disabled
}

pub open spec fn active_admins(accounts: Seq<Account>) -> nat
    decreases accounts.len(),
{
    if accounts.len() == 0 {
        0
    } else {
        active_admins(accounts.drop_last()) + if is_active_admin(accounts.last()) { 1nat } else { 0 }
    }
}

/// One more than the largest id, and at least 1.
pub open spec fn next_account_id(accounts: Seq<Account>) -> int
    decreases accounts.len(),
{
    if accounts.len() == 0 {
        1
    } else {
        let before = next_account_id(accounts.drop_last());
        if accounts.last().user.id >= before { accounts.last().user.id + 1 } else { before }
    }
}

pub open spec fn next_invite_id(invites: Seq<InviteRecord>) -> int
    decreases invites.len(),
{
    if invites.len() == 0 {
        1
    } else {
        let before = next_invite_id(invites.drop_last());
        if invites.last().id >= before { invites.last().id + 1 } else { before }
    }
}

/// The first session from position `i` on under the given token hash.
pub open spec fn session_at(sessions: Seq<Session>, token_hash: Seq<u8>, i: int) -> int
    decreases sessions.len() - i,
{
    if i >= sessions.len() {
        sessions.len() as int
    } else if sessions[i].token_hash@ == token_hash {
        i
    } else {
        session_at(sessions, token_hash, i + 1)
    }
}

/// An invite that can still be redeemed.
pub open spec fn is_usable(invite: InviteRecord, now: i64) -> bool {
    invite.used_at is None && invite.expires_at > now
}

/// The first invite from position `i` on under the given token hash.
pub open spec fn invite_at(invites: Seq<InviteRecord>, token_hash: Seq<u8>, i: int) -> int
    decreases invites.len() - i,
{
    if i >= invites.len() {
        invites.len() as int
    } else if invites[i].token_hash@ == token_hash {
        i
    } else {
        invite_at(invites, token_hash, i + 1)
    }
}

impl Accounts {
    /// Ids, names and token hashes are each used once.
    pub open spec fn well_formed(self) -> bool {
        &&& forall|i: int, j: int|
            0 <= i < j < self.accounts@.len() ==> (#[trigger] self.accounts@[i]).user.id != (
            #[trigger] self.accounts@[j]).user.id && text::lower(self.accounts@[i].user.username@)
                != text::lower(self.accounts@[j].user.username@)
        &&& forall|i: int, j: int|
            0 <= i < j < self.sessions@.len() ==> (#[trigger] self.sessions@[i]).token_hash@ != (
            #[trigger] self.sessions@[j]).token_hash@
        &&& forall|i: int, j: int|
            0 <= i < j < self.invites@.len() ==> (#[trigger] self.invites@[i]).token_hash@ != (
            #[trigger] self.invites@[j]).token_hash@ && self.invites@[i].id != self.invites@[j].id
    }

    pub open spec fn unchanged(self, old: Accounts) -> bool {
        &&& self.accounts@ == old.accounts@
        &&& self.sessions@ == old.sessions@
        &&& self.invites@ == old.invites@
    }

    pub fn new() -> (r: Accounts)
        ensures
            r.well_formed(),
            r.accounts@ == Seq::<Account>::empty(),
            r.sessions@ == Seq::<Session>::empty(),
            r.invites@ == Seq::<InviteRecord>::empty(),
    {
        Accounts { accounts: Vec::new(), sessions: Vec::new(), invites: Vec::new() }
    }
}

pub proof fn lemma_account_at(accounts: Seq<Account>, id: i64, i: int)
    requires
        0 <= i <= accounts.len(),
    ensures
        i <= account_at(accounts, id, i) <= accounts.len(),
        account_at(accounts, id, i) < accounts.len() ==> accounts[account_at(
            accounts,
            id,
            i,
        )].user.id == id,
        forall|k: int| i <= k < account_at(accounts, id, i) ==> accounts[k].user.id != id,
    decreases accounts.len() - i,
{
    if i < accounts.len() && accounts[i].user.id != id {
        lemma_account_at(accounts, id, i + 1);
    }
}

pub proof fn lemma_name_at(accounts: Seq<Account>, name: Seq<char>, i: int)
    requires
        0 <= i <= accounts.len(),
    ensures
        i <= name_at(accounts, name, i) <= accounts.len(),
        name_at(accounts, name, i) < accounts.len() ==> text::lower(
            accounts[name_at(accounts, name, i)].user.username@,
        ) == text::lower(name),
        forall|k: int|
            i <= k < name_at(accounts, name, i) ==> text::lower(accounts[k].user.username@)
                != text::lower(name),
    decreases accounts.len() - i,
{
    if i < accounts.len() && text::lower(accounts[i].user.username@) != text::lower(name) {
        lemma_name_at(accounts, name, i + 1);
    }
}

proof fn lemma_next_account_id(accounts: Seq<Account>)
    ensures
        next_account_id(accounts) >= 1,
        forall|i: int| 0 <= i < accounts.len() ==> accounts[i].user.id < next_account_id(accounts),
    decreases accounts.len(),
{
    if accounts.len() > 0 {
        lemma_next_account_id(accounts.drop_last());
        assert forall|i: int| 0 <= i < accounts.len() implies accounts[i].user.id < next_account_id(
            accounts,
        ) by {
            if i < accounts.len() - 1 {
                assert(accounts.drop_last()[i] == accounts[i]);
            }
        }
    }
}

proof fn lemma_next_invite_id(invites: Seq<InviteRecord>)
    ensures
        next_invite_id(invites) >= 1,
        forall|i: int| 0 <= i < invites.len() ==> invites[i].id < next_invite_id(invites),
    decreases invites.len(),
{
    if invites.len() > 0 {
        lemma_next_invite_id(invites.drop_last());
        assert forall|i: int| 0 <= i < invites.len() implies invites[i].id < next_invite_id(
            invites,
        ) by {
            if i < invites.len() - 1 {
                assert(invites.drop_last()[i] == invites[i]);
            }
        }
    }
}

/// Changing one account changes the number of active admins by that account alone.
proof fn lemma_active_admins_update(accounts: Seq<Account>, i: int, changed: Account)
    requires
        0 <= i < accounts.len(),
    ensures
        active_admins(accounts.update(i, changed)) == active_admins(accounts) - (if is_active_admin(
            accounts[i],
        ) {
            1int
        } else {
            0
        }) + (if is_active_admin(changed) {
            1int
        } else {
            0
        }),
    decreases accounts.len(),
{
    let after = accounts.update(i, changed);
    if i < accounts.len() - 1 {
        lemma_active_admins_update(accounts.drop_last(), i, changed);
        assert(after.drop_last() =~= accounts.drop_last().update(i, changed));
    } else {
        assert(after.drop_last() =~= accounts.drop_last());
    }
}

fn find_account(accounts: &Vec<Account>, id: i64) -> (r: usize)
    ensures
        r == account_at(accounts@, id, 0),
        r <= accounts@.len(),
        r < accounts@.len() ==> accounts@[r as int].user.id == id,
        forall|k: int| 0 <= k < r ==> accounts@[k].user.id != id,
{
    let mut i: usize = 0;
    while i < accounts.len() && accounts[i].user.id != id
        invariant
            i <= accounts@.len(),
            account_at(accounts@, id, 0) == account_at(accounts@, id, i as int),
            forall|k: int| 0 <= k < i ==> accounts@[k].user.id != id,
        decreases accounts.len() - i,
    {
        i += 1;
    }
    i
}

fn find_name(accounts: &Vec<Account>, name: &str) -> (r: usize)
    ensures
        r == name_at(accounts@, name@, 0),
        r <= accounts@.len(),
{
    let wanted = text::chars(name);
    let mut i: usize = 0;
    while i < accounts.len()
        invariant
            i <= accounts@.len(),
            wanted@ == name@,
            name_at(accounts@, name@, 0) == name_at(accounts@, name@, i as int),
        decreases accounts.len() - i,
    {
        let held = text::chars(accounts[i].user.username.as_str());
        if text::same_ignoring_case(held.as_slice(), wanted.as_slice()) {
            return i;
        }
        i += 1;
    }
    i
}

fn same_bytes(a: &[u8], b: &[u8]) -> (r: bool)
    ensures
        r == (a@ == b@),
{
    if a.len() != b.len() {
        return false;
    }
    let mut i: usize = 0;
    while i < a.len()
        invariant
            i <= a@.len(),
            a@.len() == b@.len(),
            forall|k: int| 0 <= k < i ==> a@[k] == b@[k],
        decreases a.len() - i,
    {
        if a[i] != b[i] {
            return false;
        }
        i += 1;
    }
    assert(a@ =~= b@);
    true
}

fn find_session(sessions: &Vec<Session>, token_hash: &[u8]) -> (r: usize)
    ensures
        r == session_at(sessions@, token_hash@, 0),
        r <= sessions@.len(),
        forall|k: int| 0 <= k < r ==> sessions@[k].token_hash@ != token_hash@,
        r < sessions@.len() ==> sessions@[r as int].token_hash@ == token_hash@,
{
    let mut i: usize = 0;
    while i < sessions.len()
        invariant
            i <= sessions@.len(),
            session_at(sessions@, token_hash@, 0) == session_at(sessions@, token_hash@, i as int),
            forall|k: int| 0 <= k < i ==> sessions@[k].token_hash@ != token_hash@,
        decreases sessions.len() - i,
    {
        if same_bytes(sessions[i].token_hash.as_slice(), token_hash) {
            return i;
        }
        i += 1;
    }
    i
}

fn find_invite(invites: &Vec<InviteRecord>, token_hash: &[u8]) -> (r: usize)
    ensures
        r == invite_at(invites@, token_hash@, 0),
        r <= invites@.len(),
        forall|k: int| 0 <= k < r ==> invites@[k].token_hash@ != token_hash@,
        r < invites@.len() ==> invites@[r as int].token_hash@ == token_hash@,
{
    let mut i: usize = 0;
    while i < invites.len()
        invariant
            i <= invites@.len(),
            invite_at(invites@, token_hash@, 0) == invite_at(invites@, token_hash@, i as int),
            forall|k: int| 0 <= k < i ==> invites@[k].token_hash@ != token_hash@,
        decreases invites.len() - i,
    {
        if same_bytes(invites[i].token_hash.as_slice(), token_hash) {
            return i;
        }
        i += 1;
    }
    i
}

// ---------------------------------------------------------------------------------------------
// Users
// ---------------------------------------------------------------------------------------------

pub fn active_admin_count(db: &Accounts) -> (r: usize)
    ensures
        r == active_admins(db.accounts@),
{
    let mut count: usize = 0;
    let mut i: usize = 0;
    while i < db.accounts.len()
        invariant
            i <= db.accounts@.len(),
            count <= i,
            count == active_admins(db.accounts@.take(i as int)),
        decreases db.accounts.len() - i,
    {
        if db.accounts[i].user.role == Role::Admin && !db.accounts[i].user.disabled {
            count += 1;
        }
        i += 1;
        assert(db.accounts@.take(i as int).drop_last() =~= db.accounts@.take(i - 1));
    }
    assert(db.accounts@.take(i as int) =~= db.accounts@);
    count
}

/// Names are unique whatever the case of their letters. The new account gets the next free id.
pub fn create_user(
    db: &mut Accounts,
    username: String,
    password_hash: String,
    role: Role,
    now: i64,
) -> (r: Result<i64, AccountError>)
    requires
        next_account_id(old(db).accounts@) <= i64::MAX,
    ensures
        old(db).well_formed() ==> final(db).well_formed(),
        active_admins(final(db).accounts@) >= active_admins(old(db).accounts@),
        final(db).sessions@ == old(db).sessions@,
        final(db).invites@ == old(db).invites@,
        match r {
            Ok(id) => {
                &&& name_at(old(db).accounts@, username@, 0) == old(db).accounts@.len()
                &&& id == next_account_id(old(db).accounts@)
                &&& final(db).accounts@ == old(db).accounts@.push(
                    Account {
                        user: User { id, username, role, disabled: false, created_at: now },
                        password_hash,
                    },
                )
            },
            Err(error) => {
                &&& error == AccountError::UsernameTaken
                &&& name_at(old(db).accounts@, username@, 0) < old(db).accounts@.len()
                &&& final(db).accounts@ == old(db).accounts@
            },
        },
{
    proof {
        lemma_name_at(db.accounts@, username@, 0);
        lemma_next_account_id(db.accounts@);
    }
    if find_name(&db.accounts, username.as_str()) < db.accounts.len() {
        return Err(AccountError::UsernameTaken);
    }
    let mut id: i64 = 1;
    let mut i: usize = 0;
    while i < db.accounts.len()
        invariant
            i <= db.accounts@.len(),
            *db == *old(db),
            next_account_id(db.accounts@) <= i64::MAX,
            id == next_account_id(db.accounts@.take(i as int)),
            forall|k: int|
                0 <= k < db.accounts@.len() ==> db.accounts@[k].user.id < next_account_id(
                    db.accounts@,
                ),
        decreases db.accounts.len() - i,
    {
        assert(db.accounts@.take(i + 1).drop_last() =~= db.accounts@.take(i as int));
        if db.accounts[i].user.id >= id {
            id = db.accounts[i].user.id + 1;
        }
        i += 1;
    }
    assert(db.accounts@.take(i as int) =~= db.accounts@);
    let user = User { id, username, role, disabled: false, created_at: now };
    db.accounts.push(Account { user, password_hash });
    assert(db.accounts@.drop_last() =~= old(db).accounts@);
    Ok(id)
}

/// The user and password hash for a login attempt; disabled users are included so the
/// caller can still spend the same time verifying.
pub fn login_record(db: &Accounts, username: &str) -> (r: Option<(User, String)>)
    ensures
        ({
            let i = name_at(db.accounts@, username@, 0);
            if i < db.accounts@.len() {
                r == Some((db.accounts@[i].user, db.accounts@[i].password_hash))
            } else {
                r is None
            }
        }),
{
    proof {
        lemma_name_at(db.accounts@, username@, 0);
    }
    let i = find_name(&db.accounts, username);
    if i < db.accounts.len() {
        Some((db.accounts[i].user.clone(), db.accounts[i].password_hash.clone()))
    } else {
        None
    }
}

pub fn user(db: &Accounts, id: i64) -> (r: Option<User>)
    ensures
        ({
            let i = account_at(db.accounts@, id, 0);
            if i < db.accounts@.len() {
                r == Some(db.accounts@[i].user)
            } else {
                r is None
            }
        }),
{
    let i = find_account(&db.accounts, id);
    if i < db.accounts.len() {
        Some(db.accounts[i].user.clone())
    } else {
        None
    }
}

/// By name, whatever the case of its letters.
pub open spec fn by_name() -> spec_fn(User, User) -> bool {
    |a: User, b: User| text::at_or_before(text::lower(a.username@), text::lower(b.username@))
}

pub fn users(db: &Accounts) -> (r: Vec<User>)
    ensures
        r@ == order::sorted(db.accounts@.map_values(|a: Account| a.user), by_name()),
{
    let mut all: Vec<User> = Vec::new();
    let mut i: usize = 0;
    while i < db.accounts.len()
        invariant
            i <= db.accounts@.len(),
            all@.len() == i,
            forall|k: int| 0 <= k < i ==> all@[k] == db.accounts@[k].user,
        decreases db.accounts.len() - i,
    {
        all.push(db.accounts[i].user.clone());
        i += 1;
    }
    assert(all@ =~= db.accounts@.map_values(|a: Account| a.user));
    let before = |a: &User, b: &User| -> (r: bool)
        ensures
            r == by_name()(*a, *b),
        {
            let x = text::lower_chars(text::chars(a.username.as_str()).as_slice());
            let y = text::lower_chars(text::chars(b.username.as_str()).as_slice());
            text::slice_at_or_before(x.as_slice(), y.as_slice())
        };
    order::sort_by(all, before, Ghost(by_name()))
}

/// The last active admin keeps the role.
pub fn set_role(db: &mut Accounts, id: i64, role: Role) -> (r: Result<(), AccountError>)
    ensures
        old(db).well_formed() ==> final(db).well_formed(),
        active_admins(old(db).accounts@) >= 1 ==> active_admins(final(db).accounts@) >= 1,
        final(db).sessions@ == old(db).sessions@,
        final(db).invites@ == old(db).invites@,
        ({
            let before = old(db).accounts@;
            let i = account_at(before, id, 0);
            if i >= before.len() {
                r == Err::<(), AccountError>(AccountError::NotFound) && final(db).accounts@ == before
            } else if is_active_admin(before[i]) && role != Role::Admin && active_admins(before) <= 1 {
                r == Err::<(), AccountError>(AccountError::LastAdmin) && final(db).accounts@
                    == before
            } else {
                r == Ok::<(), AccountError>(()) && final(db).accounts@ == before.update(
                    i,
                    Account { user: User { role, ..before[i].user }, ..before[i] },
                )
            }
        }),
{
    let i = find_account(&db.accounts, id);
    if i >= db.accounts.len() {
        return Err(AccountError::NotFound);
    }
    if db.accounts[i].user.role == Role::Admin && !db.accounts[i].user.disabled && role
        != Role::Admin {
        if active_admin_count(db) <= 1 {
            return Err(AccountError::LastAdmin);
        }
    }
    db.accounts[i].user.role = role;
    proof {
        lemma_active_admins_update(old(db).accounts@, i as int, db.accounts@[i as int]);
    }
    Ok(())
}

/// The last active admin cannot be disabled. Disabling ends the user's sessions.
pub fn set_disabled(db: &mut Accounts, id: i64, disabled: bool) -> (r: Result<(), AccountError>)
    ensures
        old(db).well_formed() ==> final(db).well_formed(),
        active_admins(old(db).accounts@) >= 1 ==> active_admins(final(db).accounts@) >= 1,
        final(db).invites@ == old(db).invites@,
        ({
            let before = old(db).accounts@;
            let i = account_at(before, id, 0);
            if i >= before.len() {
                r == Err::<(), AccountError>(AccountError::NotFound) && final(db).unchanged(
                    *old(db),
                )
            } else if disabled && is_active_admin(before[i]) && active_admins(before) <= 1 {
                r == Err::<(), AccountError>(AccountError::LastAdmin) && final(db).unchanged(
                    *old(db),
                )
            } else {
                &&& r == Ok::<(), AccountError>(())
                &&& final(db).accounts@ == before.update(
                    i,
                    Account { user: User { disabled, ..before[i].user }, ..before[i] },
                )
                &&& final(db).sessions@ == if disabled {
                    old(db).sessions@.filter(stays(id, None))
                } else {
                    old(db).sessions@
                }
            }
        }),
{
    let i = find_account(&db.accounts, id);
    if i >= db.accounts.len() {
        return Err(AccountError::NotFound);
    }
    if disabled && db.accounts[i].user.role == Role::Admin && !db.accounts[i].user.disabled {
        if active_admin_count(db) <= 1 {
            return Err(AccountError::LastAdmin);
        }
    }
    db.accounts[i].user.disabled = disabled;
    proof {
        lemma_active_admins_update(old(db).accounts@, i as int, db.accounts@[i as int]);
    }
    if disabled {
        end_sessions(&mut db.sessions, id, None);
        proof {
            lists::lemma_filter_positions(old(db).sessions@, stays(id, None));
        }
    }
    Ok(())
}

/// Sessions of other users, and the one to keep.
pub open spec fn stays(user_id: i64, keep: Option<Seq<u8>>) -> spec_fn(Session) -> bool {
    |s: Session| s.user_id != user_id || keep == Some(s.token_hash@)
}

/// Ends a user's sessions, but for the one to keep.
fn end_sessions(sessions: &mut Vec<Session>, user_id: i64, keep: Option<&[u8]>)
    ensures
        final(sessions)@ == old(sessions)@.filter(
            stays(
                user_id,
                match keep {
                    Some(kept) => Some(kept@),
                    None => None,
                },
            ),
        ),
{
    let ghost all = sessions@;
    let ghost p = stays(
        user_id,
        match keep {
            Some(kept) => Some(kept@),
            None => None,
        },
    );
    let mut rows: Vec<Session> = Vec::new();
    std::mem::swap(&mut rows, sessions);
    let mut left: Vec<Session> = Vec::new();
    proof {
        lists::lemma_filter_ends(all, p);
    }
    for session in it: rows
        invariant
            it.seq() == all,
            left@ == all.take(it.index() as int).filter(p),
            p == stays(
                user_id,
                match keep {
                    Some(kept) => Some(kept@),
                    None => None,
                },
            ),
    {
        proof {
            lists::lemma_filter_step(all, p, it.index() as int);
        }
        let kept = match keep {
            Some(kept) => same_bytes(session.token_hash.as_slice(), kept),
            None => false,
        };
        if session.user_id != user_id || kept {
            left.push(session);
        }
    }
    *sessions = left;
}

/// Replaces the password and ends every session of the user except `keep_session`.
pub fn set_password(
    db: &mut Accounts,
    id: i64,
    password_hash: String,
    keep_session: Option<&[u8]>,
) -> (r: Result<(), AccountError>)
    ensures
        old(db).well_formed() ==> final(db).well_formed(),
        active_admins(final(db).accounts@) == active_admins(old(db).accounts@),
        final(db).invites@ == old(db).invites@,
        ({
            let before = old(db).accounts@;
            let i = account_at(before, id, 0);
            if i >= before.len() {
                r == Err::<(), AccountError>(AccountError::NotFound) && final(db).unchanged(
                    *old(db),
                )
            } else {
                &&& r == Ok::<(), AccountError>(())
                &&& final(db).accounts@ == before.update(i, Account { password_hash, ..before[i] })
                &&& final(db).sessions@ == old(db).sessions@.filter(
                    stays(
                        id,
                        Some(
                            match keep_session {
                                Some(kept) => kept@,
                                None => seq![],
                            },
                        ),
                    ),
                )
            }
        }),
{
    let i = find_account(&db.accounts, id);
    if i >= db.accounts.len() {
        return Err(AccountError::NotFound);
    }
    db.accounts[i].password_hash = password_hash;
    proof {
        lemma_active_admins_update(old(db).accounts@, i as int, db.accounts@[i as int]);
    }
    let none: Vec<u8> = Vec::new();
    let keep: &[u8] = match keep_session {
        Some(kept) => kept,
        None => none.as_slice(),
    };
    end_sessions(&mut db.sessions, id, Some(keep));
    proof {
        lists::lemma_filter_positions(old(db).sessions@, stays(id, Some(keep@)));
    }
    assert(keep_session is None ==> keep@ =~= seq![]);
    Ok(())
}

// ---------------------------------------------------------------------------------------------
// Sessions
// ---------------------------------------------------------------------------------------------

/// Fails only where the token hash is already in use.
pub fn create_session(
    db: &mut Accounts,
    token_hash: Vec<u8>,
    user_id: i64,
    now: i64,
    expires_at: i64,
) -> (r: Result<(), AccountError>)
    ensures
        old(db).well_formed() ==> final(db).well_formed(),
        final(db).accounts@ == old(db).accounts@,
        final(db).invites@ == old(db).invites@,
        if session_at(old(db).sessions@, token_hash@, 0) < old(db).sessions@.len() {
            r == Err::<(), AccountError>(AccountError::Db) && final(db).sessions@ == old(
                db).sessions@
        } else {
            r == Ok::<(), AccountError>(()) && final(db).sessions@ == old(db).sessions@.push(
                Session { token_hash, user_id, created_at: now, expires_at },
            )
        },
{
    let i = find_session(&db.sessions, token_hash.as_slice());
    if i < db.sessions.len() {
        return Err(AccountError::Db);
    }
    db.sessions.push(Session { token_hash, user_id, created_at: now, expires_at });
    Ok(())
}

/// Whom a session stands for: its user, unless it has expired or the user is disabled.
pub open spec fn session_holder(db: Accounts, token_hash: Seq<u8>, now: i64) -> Option<User> {
    let i = session_at(db.sessions@, token_hash, 0);
    if i >= db.sessions@.len() || db.sessions@[i].expires_at <= now {
        None
    } else {
        let k = account_at(db.accounts@, db.sessions@[i].user_id, 0);
        if k >= db.accounts@.len() || db.accounts@[k].user.disabled {
            None
        } else {
            Some(db.accounts@[k].user)
        }
    }
}

pub fn session_user(db: &Accounts, token_hash: &[u8], now: i64) -> (r: Option<User>)
    ensures
        r == session_holder(*db, token_hash@, now),
{
    let i = find_session(&db.sessions, token_hash);
    if i >= db.sessions.len() || db.sessions[i].expires_at <= now {
        return None;
    }
    let k = find_account(&db.accounts, db.sessions[i].user_id);
    if k >= db.accounts.len() || db.accounts[k].user.disabled {
        return None;
    }
    Some(db.accounts[k].user.clone())
}

pub open spec fn under_other_token(token_hash: Seq<u8>) -> spec_fn(Session) -> bool {
    |s: Session| s.token_hash@ != token_hash
}

pub fn delete_session(db: &mut Accounts, token_hash: &[u8])
    ensures
        old(db).well_formed() ==> final(db).well_formed(),
        final(db).accounts@ == old(db).accounts@,
        final(db).invites@ == old(db).invites@,
        final(db).sessions@ == old(db).sessions@.filter(under_other_token(token_hash@)),
{
    let ghost all = db.sessions@;
    let ghost p = under_other_token(token_hash@);
    let mut rows: Vec<Session> = Vec::new();
    std::mem::swap(&mut rows, &mut db.sessions);
    let mut left: Vec<Session> = Vec::new();
    proof {
        lists::lemma_filter_ends(all, p);
        lists::lemma_filter_positions(all, p);
    }
    for session in it: rows
        invariant
            it.seq() == all,
            left@ == all.take(it.index() as int).filter(p),
            p == under_other_token(token_hash@),
    {
        proof {
            lists::lemma_filter_step(all, p, it.index() as int);
        }
        if !same_bytes(session.token_hash.as_slice(), token_hash) {
            left.push(session);
        }
    }
    db.sessions = left;
}

pub open spec fn still_valid(now: i64) -> spec_fn(Session) -> bool {
    |s: Session| s.expires_at > now
}

pub open spec fn still_usable(now: i64) -> spec_fn(InviteRecord) -> bool {
    |i: InviteRecord| is_usable(i, now)
}

/// Drops expired sessions, and invites that are expired or used.
pub fn purge_expired(db: &mut Accounts, now: i64)
    ensures
        old(db).well_formed() ==> final(db).well_formed(),
        final(db).accounts@ == old(db).accounts@,
        final(db).sessions@ == old(db).sessions@.filter(still_valid(now)),
        final(db).invites@ == old(db).invites@.filter(still_usable(now)),
{
    let ghost sessions = db.sessions@;
    let ghost invites = db.invites@;
    let ghost p = still_valid(now);
    let ghost q = still_usable(now);
    proof {
        lists::lemma_filter_ends(sessions, p);
        lists::lemma_filter_positions(sessions, p);
        lists::lemma_filter_ends(invites, q);
        lists::lemma_filter_positions(invites, q);
    }
    let mut rows: Vec<Session> = Vec::new();
    std::mem::swap(&mut rows, &mut db.sessions);
    let mut left: Vec<Session> = Vec::new();
    for session in it: rows
        invariant
            it.seq() == sessions,
            left@ == sessions.take(it.index() as int).filter(p),
            p == still_valid(now),
    {
        proof {
            lists::lemma_filter_step(sessions, p, it.index() as int);
        }
        if session.expires_at > now {
            left.push(session);
        }
    }
    let mut records: Vec<InviteRecord> = Vec::new();
    std::mem::swap(&mut records, &mut db.invites);
    let mut usable: Vec<InviteRecord> = Vec::new();
    for invite in it: records
        invariant
            it.seq() == invites,
            usable@ == invites.take(it.index() as int).filter(q),
            q == still_usable(now),
    {
        proof {
            lists::lemma_filter_step(invites, q, it.index() as int);
        }
        if invite.used_at.is_none() && invite.expires_at > now {
            usable.push(invite);
        }
    }
    db.sessions = left;
    db.invites = usable;
}

// ---------------------------------------------------------------------------------------------
// Invites
// ---------------------------------------------------------------------------------------------

/// Fails only where the token hash is already in use. The new invite gets the next free id.
pub fn create_invite(
    db: &mut Accounts,
    token_hash: Vec<u8>,
    role: Role,
    reset_user: Option<i64>,
    created_by: i64,
    now: i64,
    expires_at: i64,
) -> (r: Result<(), AccountError>)
    requires
        next_invite_id(old(db).invites@) <= i64::MAX,
    ensures
        old(db).well_formed() ==> final(db).well_formed(),
        final(db).accounts@ == old(db).accounts@,
        final(db).sessions@ == old(db).sessions@,
        if invite_at(old(db).invites@, token_hash@, 0) < old(db).invites@.len() {
            r == Err::<(), AccountError>(AccountError::Db) && final(db).invites@ == old(db).invites@
        } else {
            r == Ok::<(), AccountError>(()) && final(db).invites@ == old(db).invites@.push(
                InviteRecord {
                    id: next_invite_id(old(db).invites@) as i64,
                    token_hash,
                    role,
                    reset_user,
                    created_by,
                    created_at: now,
                    expires_at,
                    used_at: None,
                },
            )
        },
{
    let i = find_invite(&db.invites, token_hash.as_slice());
    if i < db.invites.len() {
        return Err(AccountError::Db);
    }
    proof {
        lemma_next_invite_id(db.invites@);
    }
    let mut id: i64 = 1;
    let mut i: usize = 0;
    while i < db.invites.len()
        invariant
            i <= db.invites@.len(),
            *db == *old(db),
            next_invite_id(db.invites@) <= i64::MAX,
            id == next_invite_id(db.invites@.take(i as int)),
            forall|k: int|
                0 <= k < db.invites@.len() ==> db.invites@[k].id < next_invite_id(db.invites@),
        decreases db.invites.len() - i,
    {
        assert(db.invites@.take(i + 1).drop_last() =~= db.invites@.take(i as int));
        if db.invites[i].id >= id {
            id = db.invites[i].id + 1;
        }
        i += 1;
    }
    assert(db.invites@.take(i as int) =~= db.invites@);
    db.invites.push(
        InviteRecord {
            id,
            token_hash,
            role,
            reset_user,
            created_by,
            created_at: now,
            expires_at,
            used_at: None,
        },
    );
    Ok(())
}

/// An invite as it is shown, with the name of the account that a reset link is for.
pub open spec fn shown_invite(db: Accounts, record: InviteRecord) -> Invite {
    Invite {
        id: record.id,
        role: record.role,
        reset_user: match record.reset_user {
            None => None,
            Some(id) => {
                let k = account_at(db.accounts@, id, 0);
                if k < db.accounts@.len() {
                    Some((id, db.accounts@[k].user.username))
                } else {
                    None
                }
            },
        },
        created_at: record.created_at,
        expires_at: record.expires_at,
    }
}

fn show_invite(db: &Accounts, record: &InviteRecord) -> (r: Invite)
    ensures
        r == shown_invite(*db, *record),
{
    let reset_user: Option<(i64, String)> = match record.reset_user {
        None => None,
        Some(id) => {
            let k = find_account(&db.accounts, id);
            if k < db.accounts.len() {
                Some((id, db.accounts[k].user.username.clone()))
            } else {
                None
            }
        },
    };
    Invite {
        id: record.id,
        role: record.role,
        reset_user,
        created_at: record.created_at,
        expires_at: record.expires_at,
    }
}

/// A usable invite: unused and unexpired.
pub fn invite(db: &Accounts, token_hash: &[u8], now: i64) -> (r: Option<Invite>)
    ensures
        ({
            let i = invite_at(db.invites@, token_hash@, 0);
            if i < db.invites@.len() && is_usable(db.invites@[i], now) {
                r == Some(shown_invite(*db, db.invites@[i]))
            } else {
                r is None
            }
        }),
{
    let i = find_invite(&db.invites, token_hash);
    if i < db.invites.len() && db.invites[i].used_at.is_none() && db.invites[i].expires_at > now {
        Some(show_invite(db, &db.invites[i]))
    } else {
        None
    }
}

pub open spec fn newest_first() -> spec_fn(Invite, Invite) -> bool {
    |a: Invite, b: Invite| b.created_at <= a.created_at
}

/// The usable invites, newest first.
pub fn pending_invites(db: &Accounts, now: i64) -> (r: Vec<Invite>)
    ensures
        r@ == order::sorted(
            db.invites@.filter(still_usable(now)).map_values(
                |record: InviteRecord| shown_invite(*db, record),
            ),
            newest_first(),
        ),
{
    let ghost p = still_usable(now);
    let ghost show = |record: InviteRecord| shown_invite(*db, record);
    let mut all: Vec<Invite> = Vec::new();
    proof {
        lists::lemma_filter_ends(db.invites@, p);
    }
    let mut i: usize = 0;
    while i < db.invites.len()
        invariant
            i <= db.invites@.len(),
            p == still_usable(now),
            show == (|record: InviteRecord| shown_invite(*db, record)),
            all@ =~= db.invites@.take(i as int).filter(p).map_values(show),
        decreases db.invites.len() - i,
    {
        proof {
            lists::lemma_filter_step(db.invites@, p, i as int);
        }
        if db.invites[i].used_at.is_none() && db.invites[i].expires_at > now {
            all.push(show_invite(db, &db.invites[i]));
        }
        i += 1;
    }
    let before = |a: &Invite, b: &Invite| -> (r: bool)
        ensures
            r == newest_first()(*a, *b),
        { b.created_at <= a.created_at };
    order::sort_by(all, before, Ghost(newest_first()))
}

pub open spec fn with_other_id(id: i64) -> spec_fn(InviteRecord) -> bool {
    |i: InviteRecord| i.id != id
}

pub fn revoke_invite(db: &mut Accounts, id: i64)
    ensures
        old(db).well_formed() ==> final(db).well_formed(),
        final(db).accounts@ == old(db).accounts@,
        final(db).sessions@ == old(db).sessions@,
        final(db).invites@ == old(db).invites@.filter(with_other_id(id)),
{
    let ghost all = db.invites@;
    let ghost p = with_other_id(id);
    let mut rows: Vec<InviteRecord> = Vec::new();
    std::mem::swap(&mut rows, &mut db.invites);
    let mut left: Vec<InviteRecord> = Vec::new();
    proof {
        lists::lemma_filter_ends(all, p);
        lists::lemma_filter_positions(all, p);
    }
    for invite in it: rows
        invariant
            it.seq() == all,
            left@ == all.take(it.index() as int).filter(p),
            p == with_other_id(id),
    {
        proof {
            lists::lemma_filter_step(all, p, it.index() as int);
        }
        if invite.id != id {
            left.push(invite);
        }
    }
    db.invites = left;
}

/// Redeems an invite: creates the account, or for a reset link replaces the password and
/// ends that user's sessions. Returns the user id. `username` is ignored for reset links. An
/// invite is used up only where it is redeemed.
pub fn redeem_invite(
    db: &mut Accounts,
    token_hash: &[u8],
    username: String,
    password_hash: String,
    now: i64,
) -> (r: Result<i64, AccountError>)
    requires
        next_account_id(old(db).accounts@) <= i64::MAX,
    ensures
        old(db).well_formed() ==> final(db).well_formed(),
        active_admins(final(db).accounts@) >= active_admins(old(db).accounts@),
        ({
            let before = old(db).accounts@;
            let invites = old(db).invites@;
            let i = invite_at(invites, token_hash@, 0);
            let used = invites.update(i, InviteRecord { used_at: Some(now), ..invites[i] });
            if i >= invites.len() || !is_usable(invites[i], now) {
                r == Err::<i64, AccountError>(AccountError::InviteInvalid) && final(db).unchanged(
                    *old(db),
                )
            } else {
                match invites[i].reset_user {
                    Some(id) => {
                        let k = account_at(before, id, 0);
                        &&& r == Ok::<i64, AccountError>(id)
                        &&& final(db).accounts@ == if k < before.len() {
                            before.update(k, Account { password_hash, ..before[k] })
                        } else {
                            before
                        }
                        &&& final(db).sessions@ == old(db).sessions@.filter(stays(id, None))
                        &&& final(db).invites@ == used
                    },
                    None => if name_at(before, username@, 0) < before.len() {
                        r == Err::<i64, AccountError>(AccountError::UsernameTaken) && final(
                            db).unchanged(*old(db))
                    } else {
                        let id = next_account_id(before) as i64;
                        &&& r == Ok::<i64, AccountError>(id)
                        &&& final(db).accounts@ == before.push(
                            Account {
                                user: User {
                                    id,
                                    username,
                                    role: invites[i].role,
                                    disabled: false,
                                    created_at: now,
                                },
                                password_hash,
                            },
                        )
                        &&& final(db).sessions@ == old(db).sessions@
                        &&& final(db).invites@ == used
                    },
                }
            }
        }),
{
    let i = find_invite(&db.invites, token_hash);
    if i >= db.invites.len() || db.invites[i].used_at.is_some() || db.invites[i].expires_at <= now {
        return Err(AccountError::InviteInvalid);
    }
    let user_id: i64 = match db.invites[i].reset_user {
        Some(id) => {
            let k = find_account(&db.accounts, id);
            if k < db.accounts.len() {
                db.accounts[k].password_hash = password_hash;
                proof {
                    lemma_active_admins_update(old(db).accounts@, k as int, db.accounts@[k as int]);
                }
            }
            end_sessions(&mut db.sessions, id, None);
            proof {
                lists::lemma_filter_positions(old(db).sessions@, stays(id, None));
            }
            id
        },
        None => {
            let role = db.invites[i].role;
            match create_user(db, username, password_hash, role, now) {
                Ok(id) => id,
                Err(error) => {
                    return Err(error);
                },
            }
        },
    };
    db.invites[i].used_at = Some(now);
    Ok(user_id)
}

// ---------------------------------------------------------------------------------------------
// Laws
// ---------------------------------------------------------------------------------------------

/// A session stands for nobody once it has expired.
pub proof fn sessions_expire(db: Accounts, token_hash: Seq<u8>, now: i64)
    requires
        session_at(db.sessions@, token_hash, 0) < db.sessions@.len(),
        db.sessions@[session_at(db.sessions@, token_hash, 0)].expires_at <= now,
    ensures
        session_holder(db, token_hash, now) is None,
{
}

pub proof fn lemma_session_at(sessions: Seq<Session>, token_hash: Seq<u8>, i: int)
    requires
        0 <= i <= sessions.len(),
    ensures
        i <= session_at(sessions, token_hash, i) <= sessions.len(),
        session_at(sessions, token_hash, i) < sessions.len() ==> sessions[session_at(
            sessions,
            token_hash,
            i,
        )].token_hash@ == token_hash,
    decreases sessions.len() - i,
{
    if i < sessions.len() && sessions[i].token_hash@ != token_hash {
        lemma_session_at(sessions, token_hash, i + 1);
    }
}

/// A session under a new token is found at the end.
pub proof fn lemma_session_pushed(sessions: Seq<Session>, begun: Session, i: int)
    requires
        0 <= i <= sessions.len(),
        session_at(sessions, begun.token_hash@, i) == sessions.len(),
    ensures
        session_at(sessions.push(begun), begun.token_hash@, i) == sessions.len(),
    decreases sessions.len() - i,
{
    let after = sessions.push(begun);
    if i < sessions.len() {
        assert(after[i] == sessions[i]);
        lemma_session_at(sessions, begun.token_hash@, i);
        lemma_session_pushed(sessions, begun, i + 1);
    } else {
        assert(after[i] == begun);
    }
}

/// Once a user's sessions are ended, none of the tokens stands for that user any more, but for
/// the one that was kept.
pub proof fn ended_sessions_stay_ended(
    before: Accounts,
    after: Accounts,
    user_id: i64,
    keep: Option<Seq<u8>>,
    token_hash: Seq<u8>,
    now: i64,
)
    requires
        after.sessions@ == before.sessions@.filter(stays(user_id, keep)),
        keep != Some(token_hash),
    ensures
        session_holder(after, token_hash, now) matches Some(user) ==> user.id != user_id,
{
    lists::lemma_filter_positions(before.sessions@, stays(user_id, keep));
    lemma_session_at(after.sessions@, token_hash, 0);
    let i = session_at(after.sessions@, token_hash, 0);
    if i < after.sessions@.len() {
        assert(stays(user_id, keep)(after.sessions@[i]));
        lemma_account_at(after.accounts@, after.sessions@[i].user_id, 0);
    }
}

/// A used invite is good for nothing: it is neither shown nor redeemed again.
pub proof fn an_invite_is_redeemed_once(invites: Seq<InviteRecord>, i: int, now: i64, later: i64)
    requires
        0 <= i < invites.len(),
    ensures
        !is_usable(
            invites.update(i, InviteRecord { used_at: Some(now), ..invites[i] })[i],
            later,
        ),
{
}

// ---------------------------------------------------------------------------------------------
// Permissions
// ---------------------------------------------------------------------------------------------

/// What an admin can grant to a member. Admins hold all of it.
#[derive(Debug, Clone, Copy, PartialEq, Eq, Structural)]
pub enum Permission {
    SetNozzle,
    ControlPrint,
}

impl Permission {
    pub const ALL: [Permission; 2] = [Permission::SetNozzle, Permission::ControlPrint];

    pub open spec fn name(self) -> Seq<char> {
        match self {
            Permission::SetNozzle => "set_nozzle"@,
            Permission::ControlPrint => "control_print"@,
        }
    }

    pub open spec fn named(raw: Seq<char>) -> Option<Permission> {
        if raw == "set_nozzle"@ {
            Some(Permission::SetNozzle)
        } else if raw == "control_print"@ {
            Some(Permission::ControlPrint)
        } else {
            None
        }
    }

    pub open spec fn title(self) -> Seq<char> {
        match self {
            Permission::SetNozzle => "Record the mounted nozzle"@,
            Permission::ControlPrint => "Pause or stop any print"@,
        }
    }

    pub fn as_str(self) -> (r: &'static str)
        ensures
            r@ == self.name(),
    {
        match self {
            Permission::SetNozzle => "set_nozzle",
            Permission::ControlPrint => "control_print",
        }
    }

    pub fn parse(raw: &str) -> (r: Option<Permission>)
        ensures
            r == Permission::named(raw@),
    {
        if text::same(raw, "set_nozzle") {
            Some(Permission::SetNozzle)
        } else if text::same(raw, "control_print") {
            Some(Permission::ControlPrint)
        } else {
            None
        }
    }

    pub fn label(self) -> (r: &'static str)
        ensures
            r@ == self.title(),
    {
        match self {
            Permission::SetNozzle => "Record the mounted nozzle",
            Permission::ControlPrint => "Pause or stop any print",
        }
    }
}

/// A permission that somebody was given.
#[derive(Debug, Clone, Copy, PartialEq, Eq, Structural)]
pub struct Grant {
    pub user_id: i64,
    pub permission: Permission,
    pub granted_by: i64,
    pub granted_at: i64,
}

/// Every permission that was given.
#[derive(Debug)]
pub struct Grants {
    pub list: Vec<Grant>,
}

pub open spec fn is_granted(list: Seq<Grant>, user_id: i64, permission: Permission) -> bool {
    exists|i: int|
        0 <= i < list.len() && (#[trigger] list[i]).user_id == user_id && list[i].permission
            == permission
}

/// Whether a user may do something: admins may, and members to whom it was granted.
pub open spec fn holds(list: Seq<Grant>, user: User, permission: Permission) -> bool {
    user.role == Role::Admin || is_granted(list, user.id, permission)
}

pub fn has_permission(grants: &Grants, user: &User, permission: Permission) -> (r: bool)
    ensures
        r == holds(grants.list@, *user, permission),
{
    if user.is_admin() {
        return true;
    }
    let list = &grants.list;
    let mut i: usize = 0;
    while i < list.len()
        invariant
            i <= list@.len(),
            list@ == grants.list@,
            forall|k: int|
                0 <= k < i ==> (#[trigger] list@[k]).user_id != user.id || list@[k].permission
                    != permission,
        decreases list.len() - i,
    {
        if list[i].user_id == user.id && list[i].permission == permission {
            assert(list@[i as int].user_id == user.id);
            return true;
        }
        i += 1;
    }
    false
}

pub open spec fn of_others(user_id: i64) -> spec_fn(Grant) -> bool {
    |grant: Grant| grant.user_id != user_id
}

pub open spec fn granted(user_id: i64, permissions: Seq<Permission>, granted_by: i64, now: i64) -> Seq<
    Grant,
> {
    permissions.map_values(
        |permission: Permission|
            Grant { user_id, permission, granted_by, granted_at: now },
    )
}

/// Gives a user these permissions and no others.
pub fn set_permissions(
    grants: &mut Grants,
    user_id: i64,
    permissions: &[Permission],
    granted_by: i64,
    now: i64,
)
    ensures
        final(grants).list@ == old(grants).list@.filter(of_others(user_id)) + granted(
            user_id,
            permissions@,
            granted_by,
            now,
        ),
{
    let ghost all = grants.list@;
    let ghost p = of_others(user_id);
    proof {
        lists::lemma_filter_ends(all, p);
    }
    let mut left: Vec<Grant> = Vec::new();
    let mut i: usize = 0;
    while i < grants.list.len()
        invariant
            i <= all.len(),
            grants.list@ == all,
            p == of_others(user_id),
            left@ == all.take(i as int).filter(p),
        decreases all.len() - i,
    {
        proof {
            lists::lemma_filter_step(all, p, i as int);
        }
        let grant = grants.list[i];
        if grant.user_id != user_id {
            left.push(grant);
        }
        i += 1;
    }
    let ghost others = left@;
    let mut k: usize = 0;
    while k < permissions.len()
        invariant
            k <= permissions@.len(),
            left@ =~= others + granted(user_id, permissions@.take(k as int), granted_by, now),
        decreases permissions.len() - k,
    {
        left.push(Grant { user_id, permission: permissions[k], granted_by, granted_at: now });
        assert(permissions@.take(k + 1) =~= permissions@.take(k as int).push(permissions@[k as int]));
        k += 1;
    }
    assert(permissions@.take(k as int) =~= permissions@);
    grants.list = left;
}

/// Permissions are set for one user at a time: that user then holds what was given, and nobody
/// else gains or loses anything.
pub proof fn permissions_are_personal(
    before: Seq<Grant>,
    user_id: i64,
    permissions: Seq<Permission>,
    granted_by: i64,
    now: i64,
    other: i64,
    permission: Permission,
)
    requires
        other != user_id,
    ensures
        ({
            let after = before.filter(of_others(user_id)) + granted(
                user_id,
                permissions,
                granted_by,
                now,
            );
            &&& is_granted(after, user_id, permission) <==> permissions.contains(permission)
            &&& is_granted(after, other, permission) <==> is_granted(before, other, permission)
        }),
{
    let p = of_others(user_id);
    let kept = before.filter(p);
    let given = granted(user_id, permissions, granted_by, now);
    let after = kept + given;
    lists::lemma_filter_positions(before, p);
    if permissions.contains(permission) {
        let k = choose|k: int| 0 <= k < permissions.len() && permissions[k] == permission;
        assert(after[kept.len() + k] == given[k]);
        assert(after[kept.len() + k].user_id == user_id);
    }
    if is_granted(after, user_id, permission) {
        let i = choose|i: int|
            0 <= i < after.len() && (#[trigger] after[i]).user_id == user_id && after[i].permission
                == permission;
        if i < kept.len() {
            assert(p(kept[i]));
        } else {
            assert(after[i] == given[i - kept.len()]);
            assert(permissions[i - kept.len()] == permission);
        }
    }
    if is_granted(after, other, permission) {
        let i = choose|i: int|
            0 <= i < after.len() && (#[trigger] after[i]).user_id == other && after[i].permission
                == permission;
        if i >= kept.len() {
            assert(after[i] == given[i - kept.len()]);
        }
        assert(after[i] == kept[i]);
        let a = choose|a: int| 0 <= a < before.len() && before[a] == kept[i];
        assert(before[a].user_id == other);
    }
    if is_granted(before, other, permission) {
        let i = choose|i: int|
            0 <= i < before.len() && (#[trigger] before[i]).user_id == other
                && before[i].permission == permission;
        lists::lemma_filter_keeps(before, p, i);
        let a = choose|a: int| 0 <= a < kept.len() && kept[a] == before[i];
        assert(after[a] == kept[a]);
        assert(after[a].user_id == other);
    }
}

// ---------------------------------------------------------------------------------------------
// Themes
// ---------------------------------------------------------------------------------------------

/// The colours that pages are shown in.
#[derive(Debug, Clone, Copy, PartialEq, Eq, Structural)]
pub enum Theme {
    Printhub,
    Docker,
}

impl Theme {
    pub open spec fn name(self) -> Seq<char> {
        match self {
            Theme::Printhub => "printhub"@,
            Theme::Docker => "docker"@,
        }
    }

    pub open spec fn named(raw: Seq<char>) -> Option<Theme> {
        if raw == "printhub"@ {
            Some(Theme::Printhub)
        } else if raw == "docker"@ {
            Some(Theme::Docker)
        } else {
            None
        }
    }

    pub fn as_str(self) -> (r: &'static str)
        ensures
            r@ == self.name(),
    {
        match self {
            Theme::Printhub => "printhub",
            Theme::Docker => "docker",
        }
    }

    pub fn parse(raw: &str) -> (r: Option<Theme>)
        ensures
            r == Theme::named(raw@),
    {
        if text::same(raw, "printhub") {
            Some(Theme::Printhub)
        } else if text::same(raw, "docker") {
            Some(Theme::Docker)
        } else {
            None
        }
    }
}

/// The themes that people picked, the latest last.
#[derive(Debug)]
pub struct Themes {
    pub picked: Vec<(i64, Theme)>,
}

/// The theme of a user: what they picked last, and without a pick the one that visitors see.
pub open spec fn theme_of(picked: Seq<(i64, Theme)>, user_id: i64) -> Theme
    decreases picked.len(),
{
    if picked.len() == 0 {
        Theme::Printhub
    } else if picked.last().0 == user_id {
        picked.last().1
    } else {
        theme_of(picked.drop_last(), user_id)
    }
}

impl Themes {
    pub fn of(&self, user_id: i64) -> (r: Theme)
        ensures
            r == theme_of(self.picked@, user_id),
    {
        let picked = &self.picked;
        let mut i: usize = picked.len();
        assert(picked@.take(i as int) =~= picked@);
        while i > 0
            invariant
                i <= picked@.len(),
                picked@ == self.picked@,
                theme_of(picked@, user_id) == theme_of(picked@.take(i as int), user_id),
            decreases i,
        {
            assert(picked@.take(i as int).drop_last() =~= picked@.take(i - 1));
            if picked[i - 1].0 == user_id {
                return picked[i - 1].1;
            }
            i -= 1;
        }
        Theme::Printhub
    }

    pub fn set_theme(&mut self, user_id: i64, theme: Theme)
        ensures
            final(self).picked@ == old(self).picked@.push((user_id, theme)),
    {
        self.picked.push((user_id, theme));
    }
}

/// A theme is picked for one user alone.
pub proof fn themes_are_personal(picked: Seq<(i64, Theme)>, user_id: i64, theme: Theme, other: i64)
    requires
        other != user_id,
    ensures
        theme_of(picked.push((user_id, theme)), user_id) == theme,
        theme_of(picked.push((user_id, theme)), other) == theme_of(picked, other),
{
    assert(picked.push((user_id, theme)).drop_last() =~= picked);
}

// ---------------------------------------------------------------------------------------------
// Laws
// ---------------------------------------------------------------------------------------------

proof fn lemma_session_at_is(sessions: Seq<Session>, token_hash: Seq<u8>, i: int, at: int)
    requires
        0 <= i <= at < sessions.len(),
        sessions[at].token_hash@ == token_hash,
        forall|k: int| i <= k < at ==> (#[trigger] sessions[k]).token_hash@ != token_hash,
    ensures
        session_at(sessions, token_hash, i) == at,
    decreases at - i,
{
    if i < at {
        lemma_session_at_is(sessions, token_hash, i + 1, at);
    }
}

proof fn lemma_account_at_is(accounts: Seq<Account>, id: i64, i: int, at: int)
    requires
        0 <= i <= at < accounts.len(),
        accounts[at].user.id == id,
        forall|k: int| i <= k < at ==> (#[trigger] accounts[k]).user.id != id,
    ensures
        account_at(accounts, id, i) == at,
    decreases at - i,
{
    if i < at {
        lemma_account_at_is(accounts, id, i + 1, at);
    }
}

/// A token stands for the user of its session until the session expires, unless that user is
/// disabled.
pub proof fn a_token_stands_for_its_user(db: Accounts, s: int, a: int, now: i64)
    requires
        db.well_formed(),
        0 <= s < db.sessions@.len(),
        0 <= a < db.accounts@.len(),
        db.accounts@[a].user.id == db.sessions@[s].user_id,
    ensures
        session_holder(db, db.sessions@[s].token_hash@, now) == if now < db.sessions@[s].expires_at
            && !db.accounts@[a].user.disabled {
            Some(db.accounts@[a].user)
        } else {
            None
        },
{
    assert forall|k: int| 0 <= k < s implies (#[trigger] db.sessions@[k]).token_hash@
        != db.sessions@[s].token_hash@ by {}
    lemma_session_at_is(db.sessions@, db.sessions@[s].token_hash@, 0, s);
    assert forall|k: int| 0 <= k < a implies (#[trigger] db.accounts@[k]).user.id
        != db.accounts@[a].user.id by {}
    lemma_account_at_is(db.accounts@, db.accounts@[a].user.id, 0, a);
}

/// A token without a session stands for nobody.
pub proof fn an_unknown_token_stands_for_nobody(db: Accounts, token_hash: Seq<u8>, now: i64)
    requires
        forall|i: int|
            0 <= i < db.sessions@.len() ==> (#[trigger] db.sessions@[i]).token_hash@ != token_hash,
    ensures
        session_holder(db, token_hash, now) is None,
{
    lemma_no_session(db.sessions@, token_hash, 0);
}

proof fn lemma_no_session(sessions: Seq<Session>, token_hash: Seq<u8>, i: int)
    requires
        0 <= i <= sessions.len(),
        forall|k: int|
            i <= k < sessions.len() ==> (#[trigger] sessions[k]).token_hash@ != token_hash,
    ensures
        session_at(sessions, token_hash, i) == sessions.len(),
    decreases sessions.len() - i,
{
    if i < sessions.len() {
        lemma_no_session(sessions, token_hash, i + 1);
    }
}

/// Logging out ends the session of that token and no other; expired sessions are dropped and no
/// others; and ending a user's sessions leaves other users', and the one that is kept.
pub proof fn sessions_end_one_by_one(
    sessions: Seq<Session>,
    session: Session,
    token_hash: Seq<u8>,
    user_id: i64,
    keep: Option<Seq<u8>>,
    now: i64,
)
    ensures
        sessions.filter(under_other_token(token_hash)).contains(session) <==> sessions.contains(
            session,
        ) && session.token_hash@ != token_hash,
        sessions.filter(still_valid(now)).contains(session) <==> sessions.contains(session)
            && session.expires_at > now,
        sessions.filter(stays(user_id, keep)).contains(session) <==> sessions.contains(session) && (
        session.user_id != user_id || keep == Some(session.token_hash@)),
{
    lists::filtering_keeps_what_is_picked(sessions, under_other_token(token_hash), session);
    lists::filtering_keeps_what_is_picked(sessions, still_valid(now), session);
    lists::filtering_keeps_what_is_picked(sessions, stays(user_id, keep), session);
}

/// An invite is good until it is used or its time is over, and not at that time any more.
pub proof fn invites_are_good_until_used_or_expired(invite: InviteRecord, now: i64)
    ensures
        is_usable(invite, now) <==> invite.used_at is None && now < invite.expires_at,
        still_usable(now)(invite) <==> invite.used_at is None && now < invite.expires_at,
{
}

/// Admins may do anything; a member may do what was granted to that member.
pub proof fn members_need_a_grant(list: Seq<Grant>, user: User, permission: Permission)
    ensures
        holds(list, user, permission) <==> user.role == Role::Admin || exists|i: int|
            0 <= i < list.len() && (#[trigger] list[i]).user_id == user.id && list[i].permission
                == permission,
{
}

/// Admins are counted while they are not disabled: one more counts, any other account does not.
pub proof fn active_admins_are_counted(accounts: Seq<Account>, account: Account)
    ensures
        active_admins(seq![]) == 0,
        active_admins(accounts.push(account)) == active_admins(accounts) + if account.user.role
            == Role::Admin && !account.user.disabled {
            1nat
        } else {
            0
        },
{
    assert(accounts.push(account).drop_last() =~= accounts);
}

/// Usernames have 1 to 32 plain characters, passwords at least 10 characters and at most 256
/// bytes.
pub proof fn names_and_passwords_have_their_lengths(s: Seq<char>)
    ensures
        is_username(s) ==> 1 <= s.len() <= 32,
        is_username(s) <==> 1 <= s.len() <= 32 && forall|i: int|
            0 <= i < s.len() ==> ({
                let c = #[trigger] s[i];
                'a' <= c <= 'z' || 'A' <= c <= 'Z' || '0' <= c <= '9' || c == '_' || c == '-' || c
                    == '.'
            }),
        is_password(s) <==> s.len() >= 10 && vstd::utf8::encode_utf8(s).len() <= 256,
{
    assert(forall|i: int|
        0 <= i < s.len() ==> (is_username_char(#[trigger] s[i]) <==> ({
            let c = s[i];
            'a' <= c <= 'z' || 'A' <= c <= 'Z' || '0' <= c <= '9' || c == '_' || c == '-' || c
                == '.'
        })));
}

/// An account is found by its name whatever the case of its letters.
pub proof fn names_are_found_in_any_case(accounts: Seq<Account>, name: Seq<char>, other: Seq<char>)
    requires
        text::lower(name) == text::lower(other),
    ensures
        name_at(accounts, name, 0) == name_at(accounts, other, 0),
        name_at(accounts, name, 0) < accounts.len() ==> text::lower(
            accounts[name_at(accounts, name, 0)].user.username@,
        ) == text::lower(name),
        forall|k: int|
            0 <= k < name_at(accounts, name, 0) ==> text::lower(
                (#[trigger] accounts[k]).user.username@,
            ) != text::lower(name),
{
    lemma_name_found(accounts, name, other, 0);
}

proof fn lemma_name_found(accounts: Seq<Account>, name: Seq<char>, other: Seq<char>, i: int)
    requires
        0 <= i <= accounts.len(),
        text::lower(name) == text::lower(other),
    ensures
        i <= name_at(accounts, name, i) <= accounts.len(),
        name_at(accounts, name, i) == name_at(accounts, other, i),
        name_at(accounts, name, i) < accounts.len() ==> text::lower(
            accounts[name_at(accounts, name, i)].user.username@,
        ) == text::lower(name),
        forall|k: int|
            i <= k < name_at(accounts, name, i) ==> text::lower(
                (#[trigger] accounts[k]).user.username@,
            ) != text::lower(name),
    decreases accounts.len() - i,
{
    if i < accounts.len() && text::lower(accounts[i].user.username@) != text::lower(name) {
        lemma_name_found(accounts, name, other, i + 1);
    }
}

/// An invite is found by the hash of its token alone.
pub proof fn an_invite_is_found_by_its_token(invites: Seq<InviteRecord>, token_hash: Seq<u8>, k: int)
    ensures
        ({
            let i = invite_at(invites, token_hash, 0);
            &&& 0 <= i <= invites.len()
            &&& i < invites.len() ==> invites[i].token_hash@ == token_hash
            &&& 0 <= k < invites.len() && invites[k].token_hash@ == token_hash ==> i <= k
        }),
{
    lemma_invite_found(invites, token_hash, 0, k);
}

proof fn lemma_invite_found(invites: Seq<InviteRecord>, token_hash: Seq<u8>, from: int, k: int)
    requires
        0 <= from <= invites.len(),
    ensures
        ({
            let i = invite_at(invites, token_hash, from);
            &&& from <= i <= invites.len()
            &&& i < invites.len() ==> invites[i].token_hash@ == token_hash
            &&& from <= k < invites.len() && invites[k].token_hash@ == token_hash ==> i <= k
        }),
    decreases invites.len() - from,
{
    if from < invites.len() {
        lemma_invite_found(invites, token_hash, from + 1, k);
    }
}

/// A new account, and a new invite, has a number that no other has.
pub proof fn new_numbers_are_above_all_others(
    accounts: Seq<Account>,
    invites: Seq<InviteRecord>,
    i: int,
)
    ensures
        0 <= i < accounts.len() ==> accounts[i].user.id < next_account_id(accounts),
        0 <= i < invites.len() ==> invites[i].id < next_invite_id(invites),
        next_account_id(accounts) >= 1,
        next_invite_id(invites) >= 1,
    decreases accounts.len() + invites.len(),
{
    if accounts.len() > 0 {
        new_numbers_are_above_all_others(accounts.drop_last(), invites, i);
    }
    if invites.len() > 0 {
        new_numbers_are_above_all_others(accounts, invites.drop_last(), i);
    }
}

/// What is unchanged has the same accounts, sessions and invites.
pub proof fn unchanged_accounts_are_the_same(before: Accounts, after: Accounts)
    ensures
        after.unchanged(before) <==> after.accounts@ == before.accounts@ && after.sessions@
            == before.sessions@ && after.invites@ == before.invites@,
{
}

/// A reset link is shown with the name of the user whose password it resets.
pub proof fn reset_links_name_their_user(db: Accounts, record: InviteRecord)
    ensures
        ({
            let shown = shown_invite(db, record);
            &&& shown.id == record.id && shown.role == record.role && shown.expires_at
                == record.expires_at
            &&& record.reset_user is None ==> shown.reset_user is None
            &&& shown.reset_user matches Some((id, name)) ==> exists|k: int|
                0 <= k < db.accounts@.len() && Some((#[trigger] db.accounts@[k]).user.id)
                    == record.reset_user && id == db.accounts@[k].user.id && name
                    == db.accounts@[k].user.username
            &&& record.reset_user is Some && shown.reset_user is None ==> forall|k: int|
                0 <= k < db.accounts@.len() ==> Some((#[trigger] db.accounts@[k]).user.id)
                    != record.reset_user
        }),
{
    if let Some(id) = record.reset_user {
        lemma_account_at(db.accounts@, id, 0);
    }
}

} // verus!
