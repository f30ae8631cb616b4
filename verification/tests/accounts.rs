use printhub::accounts::{
    self, AccountError, Accounts, Grants, Permission, Role, Theme, Themes, User,
};

fn db_with_admin() -> (Accounts, i64) {
    let mut db = Accounts::new();
    let admin =
        accounts::create_user(&mut db, "alex".to_string(), "hash-a".to_string(), Role::Admin, 100)
            .unwrap();
    (db, admin)
}

fn add(db: &mut Accounts, name: &str, hash: &str, role: Role, now: i64) -> Result<i64, AccountError> {
    accounts::create_user(db, name.to_string(), hash.to_string(), role, now)
}

fn redeem(
    db: &mut Accounts,
    token: &[u8],
    name: &str,
    hash: &str,
    now: i64,
) -> Result<i64, AccountError> {
    accounts::redeem_invite(db, token, name.to_string(), hash.to_string(), now)
}

#[test]
fn usernames_are_unique_case_insensitively() {
    let (mut db, _) = db_with_admin();
    let err = add(&mut db, "ALEX", "h", Role::Member, 1).unwrap_err();
    assert!(matches!(err, AccountError::UsernameTaken));
    let (user, hash) = accounts::login_record(&db, "Alex").unwrap();
    assert_eq!(user.username, "alex");
    assert_eq!(hash, "hash-a");
}

#[test]
fn last_admin_is_protected() {
    let (mut db, admin) = db_with_admin();
    assert!(matches!(
        accounts::set_role(&mut db, admin, Role::Member),
        Err(AccountError::LastAdmin)
    ));
    assert!(matches!(
        accounts::set_disabled(&mut db, admin, true),
        Err(AccountError::LastAdmin)
    ));

    let second = add(&mut db, "sam", "h", Role::Admin, 1).unwrap();
    accounts::set_role(&mut db, admin, Role::Member).unwrap();
    assert!(matches!(
        accounts::set_disabled(&mut db, second, true),
        Err(AccountError::LastAdmin)
    ));
}

#[test]
fn sessions_expire_and_die_with_disable() {
    let (mut db, admin) = db_with_admin();
    let member = add(&mut db, "sam", "h", Role::Member, 1).unwrap();
    accounts::create_session(&mut db, b"tok".to_vec(), member, 10, 20).unwrap();

    assert_eq!(accounts::session_user(&db, b"tok", 15).unwrap().id, member);
    assert!(accounts::session_user(&db, b"tok", 20).is_none());

    accounts::create_session(&mut db, b"tok2".to_vec(), member, 10, 1000).unwrap();
    accounts::set_disabled(&mut db, member, true).unwrap();
    assert!(accounts::session_user(&db, b"tok2", 15).is_none());
    accounts::set_disabled(&mut db, member, false).unwrap();
    assert!(
        accounts::session_user(&db, b"tok2", 15).is_none(),
        "disabling ended the session for good"
    );
    let _ = admin;
}

#[test]
fn password_change_keeps_only_the_current_session() {
    let (mut db, admin) = db_with_admin();
    accounts::create_session(&mut db, b"here".to_vec(), admin, 1, 1000).unwrap();
    accounts::create_session(&mut db, b"elsewhere".to_vec(), admin, 1, 1000).unwrap();
    accounts::set_password(&mut db, admin, "new".to_string(), Some(b"here")).unwrap();
    assert!(accounts::session_user(&db, b"here", 2).is_some());
    assert!(accounts::session_user(&db, b"elsewhere", 2).is_none());
}

#[test]
fn invite_creates_account_once() {
    let (mut db, admin) = db_with_admin();
    accounts::create_invite(&mut db, b"inv".to_vec(), Role::Member, None, admin, 10, 100).unwrap();
    assert!(accounts::invite(&db, b"inv", 50).is_some());

    let id = redeem(&mut db, b"inv", "sam", "h", 50).unwrap();
    let user = accounts::user(&db, id).unwrap();
    assert_eq!((user.username.as_str(), user.role), ("sam", Role::Member));

    assert!(matches!(
        redeem(&mut db, b"inv", "kim", "h", 51),
        Err(AccountError::InviteInvalid)
    ));
    assert!(accounts::invite(&db, b"inv", 51).is_none());
}

#[test]
fn expired_invite_is_refused() {
    let (mut db, admin) = db_with_admin();
    accounts::create_invite(&mut db, b"old".to_vec(), Role::Member, None, admin, 10, 100).unwrap();
    assert!(matches!(
        redeem(&mut db, b"old", "sam", "h", 100),
        Err(AccountError::InviteInvalid)
    ));
}

#[test]
fn taken_username_leaves_invite_usable() {
    let (mut db, admin) = db_with_admin();
    accounts::create_invite(&mut db, b"inv".to_vec(), Role::Member, None, admin, 10, 100).unwrap();
    assert!(matches!(
        redeem(&mut db, b"inv", "alex", "h", 50),
        Err(AccountError::UsernameTaken)
    ));
    redeem(&mut db, b"inv", "sam", "h", 51).unwrap();
}

#[test]
fn reset_link_replaces_password_and_ends_sessions() {
    let (mut db, admin) = db_with_admin();
    let member = add(&mut db, "sam", "old", Role::Member, 1).unwrap();
    accounts::create_session(&mut db, b"s".to_vec(), member, 1, 1000).unwrap();
    accounts::create_invite(
        &mut db,
        b"reset".to_vec(),
        Role::Member,
        Some(member),
        admin,
        10,
        100,
    )
    .unwrap();

    let invite = accounts::invite(&db, b"reset", 20).unwrap();
    assert_eq!(invite.reset_user, Some((member, "sam".to_owned())));

    assert_eq!(redeem(&mut db, b"reset", "ignored", "new", 20).unwrap(), member);
    assert_eq!(accounts::login_record(&db, "sam").unwrap().1, "new");
    assert!(accounts::session_user(&db, b"s", 21).is_none());
}

#[test]
fn validation() {
    assert!(accounts::validate_username("sam.k-9_x").is_ok());
    assert!(accounts::validate_username("").is_err());
    assert!(accounts::validate_username("has space").is_err());
    assert!(accounts::validate_username(&"a".repeat(33)).is_err());
    assert!(accounts::validate_password("correct horse").is_ok());
    assert!(accounts::validate_password("short").is_err());
    assert!(accounts::validate_password(&"x".repeat(257)).is_err());
}

#[test]
fn passwords_are_limited_in_bytes_but_counted_in_characters() {
    assert!(accounts::validate_password("ßßßßßßßßßß").is_ok());
    assert!(accounts::validate_password("ßßßßß").is_err(), "ten bytes, but five characters");
    assert!(accounts::validate_password(&"ß".repeat(128)).is_ok());
    assert_eq!(
        accounts::validate_password(&"ß".repeat(129)).unwrap_err(),
        "passwords need at least 10 characters (and at most 256 bytes)"
    );
    assert!(accounts::validate_username(&"a".repeat(32)).is_ok());
    assert_eq!(
        accounts::validate_username("ümlaut").unwrap_err(),
        "usernames are 1 to 32 letters, digits, dots, dashes or underscores"
    );
}

#[test]
fn people_are_listed_by_name_and_unknown_ids_are_not_found() {
    let (mut db, _) = db_with_admin();
    add(&mut db, "Zoe", "h", Role::Member, 1).unwrap();
    add(&mut db, "bob", "h", Role::Member, 1).unwrap();
    let names: Vec<String> = accounts::users(&db).into_iter().map(|user| user.username).collect();
    assert_eq!(names, ["alex", "bob", "Zoe"]);
    assert_eq!(accounts::set_role(&mut db, 99, Role::Member), Err(AccountError::NotFound));
    assert_eq!(accounts::set_disabled(&mut db, 99, true), Err(AccountError::NotFound));
    assert_eq!(
        accounts::set_password(&mut db, 99, "h".to_string(), None),
        Err(AccountError::NotFound)
    );
    assert_eq!(accounts::active_admin_count(&db), 1);
}

#[test]
fn a_token_hash_is_used_once() {
    let (mut db, admin) = db_with_admin();
    accounts::create_session(&mut db, b"tok".to_vec(), admin, 1, 10).unwrap();
    assert_eq!(
        accounts::create_session(&mut db, b"tok".to_vec(), admin, 1, 10),
        Err(AccountError::Db)
    );
    accounts::create_invite(&mut db, b"inv".to_vec(), Role::Member, None, admin, 1, 10).unwrap();
    assert_eq!(
        accounts::create_invite(&mut db, b"inv".to_vec(), Role::Member, None, admin, 1, 10),
        Err(AccountError::Db)
    );
    accounts::purge_expired(&mut db, 10);
    assert!(db.sessions.is_empty());
    assert!(db.invites.is_empty());
}

#[test]
fn pending_invites_are_listed_newest_first_and_can_be_revoked() {
    let (mut db, admin) = db_with_admin();
    accounts::create_invite(&mut db, b"a".to_vec(), Role::Member, None, admin, 10, 100).unwrap();
    accounts::create_invite(&mut db, b"b".to_vec(), Role::Admin, None, admin, 20, 100).unwrap();
    let pending = accounts::pending_invites(&db, 50);
    assert_eq!(pending.len(), 2);
    assert_eq!(pending[0].role, Role::Admin);
    accounts::revoke_invite(&mut db, pending[0].id);
    assert_eq!(accounts::pending_invites(&db, 50).len(), 1);
    assert!(accounts::invite(&db, b"b", 50).is_none());
}

#[test]
fn rows_with_an_unknown_role_are_members() {
    let user = accounts::user_from(7, "sam".to_string(), "owner", 1, 5);
    assert_eq!(user.role, Role::Member);
    assert!(user.disabled);
    assert_eq!(Role::parse(Role::Admin.as_str()), Some(Role::Admin));
    assert_eq!(Role::parse("Admin"), None);
    assert_eq!(AccountError::UsernameTaken.message(), "that username is taken");
    assert_eq!(
        AccountError::InviteInvalid.message(),
        "this link is invalid, expired or already used"
    );
}

fn member(id: i64) -> User {
    User { id, username: "kim".to_string(), role: Role::Member, disabled: false, created_at: 0 }
}

#[test]
fn permissions_belong_to_whom_they_were_granted() {
    let mut grants = Grants { list: Vec::new() };
    let kim = member(2);
    let sam = member(3);
    let admin = User { role: Role::Admin, ..member(1) };
    assert!(accounts::has_permission(&grants, &admin, Permission::SetNozzle));
    assert!(!accounts::has_permission(&grants, &kim, Permission::SetNozzle));

    accounts::set_permissions(&mut grants, 2, &[Permission::SetNozzle], 1, 10);
    assert!(accounts::has_permission(&grants, &kim, Permission::SetNozzle));
    assert!(!accounts::has_permission(&grants, &kim, Permission::ControlPrint));
    assert!(!accounts::has_permission(&grants, &sam, Permission::SetNozzle));

    accounts::set_permissions(&mut grants, 2, &[Permission::ControlPrint], 1, 20);
    assert!(!accounts::has_permission(&grants, &kim, Permission::SetNozzle));
    assert!(accounts::has_permission(&grants, &kim, Permission::ControlPrint));
    assert_eq!(Permission::parse("set_nozzle"), Some(Permission::SetNozzle));
    assert_eq!(Permission::ControlPrint.label(), "Pause or stop any print");
}

#[test]
fn a_theme_is_picked_for_one_user() {
    let mut themes = Themes { picked: Vec::new() };
    assert_eq!(themes.of(2), Theme::Printhub);
    themes.set_theme(2, Theme::Docker);
    assert_eq!(themes.of(2), Theme::Docker);
    assert_eq!(themes.of(3), Theme::Printhub);
    assert_eq!(Theme::parse("neon"), None);
}
