use printhub::accounts::{self, Accounts, Grants, Permission, Role, Theme, Themes, User};
use printhub::app::{self, Bootstrap};
use printhub::auth::{self, Header, Headers, LoginLimiter};
use printhub::cc2::client::{CommandError, LinkState, PrinterSnapshot};
use printhub::cc2::model::{
    printing_sub_status as sub, Canvas, CanvasInfo, Heater, MachineStatus, StatusView, Tray,
};
use printhub::config::{AdminBootstrap, Nozzle};
use printhub::decimal::Decimal;
use printhub::inventory::{self, Inventory};
use printhub::jobs::{self, JobState, Jobs, MountedNozzle, NewJob, Source};
use printhub::slicer::{placement_args, SCALE_MAX, SCALE_PERCENT};
use printhub::web::admin::{
    self, done_message, problem_message, DisabledForm, InviteForm, PermissionsForm, RoleForm,
};
use printhub::web::assets::content_type;
use printhub::web::error::AppError;
use printhub::web::filament::{
    self, ledger_change, ArchivedForm, BindForm, Saved, SpoolForm, WeighForm,
};
use printhub::web::forms::Fields;
use printhub::web::live::{self, control, control_answer, may_control, Control};
use printhub::web::pages::{
    self, change_password, change_theme, invite_page, login, logout, nozzle_choices, redeem,
    set_nozzle, Login, LoginForm, NozzleForm, PasswordForm, RedeemForm, Redeemed, ThemeForm,
};
use printhub::web::queue::{
    cancel_job, confirm_job, download_name, job_file, mark_bed_clear, move_job, requeue_job,
    Cancelled, Confirmed, FileKind, MoveForm,
};
use printhub::web::session::{current_user, login_required, AdminUser, CurrentUser, LoginRequired};
use printhub::web::storage::{age, delete_files, size, storage_page, Outcome, Stored};
use printhub::web::upload::{
    capitalise, clean_file_name, create_gcode_job, parse_scale, upload_kind, Upload,
};
use printhub::web::views::{
    format_time, human_duration, layer_line, safe_color, state_label, temperature, PrinterCard,
};
use printhub::zone::Zone;

const PASSWORD: &str = "correct horse";

fn utc() -> Zone {
    let mut block: Vec<u8> = Vec::new();
    block.extend_from_slice(b"TZif2");
    block.extend_from_slice(&[0; 15]);
    for count in [0u32, 0, 0, 0, 1, 4] {
        block.extend_from_slice(&count.to_be_bytes());
    }
    block.extend_from_slice(&[0, 0, 0, 0, 0, 0]);
    block.extend_from_slice(b"UTC\0");
    let mut data = block.clone();
    data.extend_from_slice(&block);
    data.extend_from_slice(b"\nUTC0\n");
    Zone::new("UTC".to_string(), data).unwrap()
}

fn headers(pairs: &[(&str, &str)]) -> Headers {
    Headers {
        list: pairs
            .iter()
            .map(|(name, value)| Header {
                name: name.to_string(),
                value: Some(value.to_string()),
            })
            .collect(),
    }
}

fn with_admin() -> (Accounts, User) {
    let mut db = Accounts::new();
    let hash = auth::hash_password(PASSWORD).unwrap();
    let id = accounts::create_user(&mut db, "admin".to_string(), hash, Role::Admin, 0).unwrap();
    let admin = accounts::user(&db, id).unwrap();
    (db, admin)
}

fn add_member(db: &mut Accounts, name: &str) -> User {
    let id =
        accounts::create_user(db, name.to_string(), "h".to_string(), Role::Member, 0).unwrap();
    accounts::user(db, id).unwrap()
}

fn no_grants() -> Grants {
    Grants { list: Vec::new() }
}

fn form(username: &str, password: &str) -> LoginForm {
    LoginForm {
        username: username.to_string(),
        password: password.to_string(),
    }
}

/// The pair that a browser sends back of a cookie.
fn pair(cookie: &str) -> String {
    cookie.split(';').next().unwrap().to_string()
}

fn tenths(digits: u64) -> Decimal {
    Decimal { negative: false, digits, power: -1 }
}

#[test]
fn anonymous_visitors_are_sent_to_login() {
    assert_eq!(login_required(&headers(&[]), true), LoginRequired::Redirect);
    assert_eq!(login_required(&headers(&[]), false), LoginRequired::Unauthorized);
    assert_eq!(
        login_required(&headers(&[("hx-request", "true")]), true),
        LoginRequired::HxRedirect
    );
}

#[test]
fn login_logout_round_trip() {
    let (mut db, admin) = with_admin();
    let stand_in = auth::hash_password(auth::STAND_IN).unwrap();
    let mut limiter = LoginLimiter::default();
    let none = headers(&[]);
    let Ok(Login::Started(cookie)) = login(
        &mut db,
        &mut limiter,
        &none,
        false,
        &form(" Admin ", PASSWORD),
        &stand_in,
        1_000,
        0,
    ) else {
        panic!("the password is right");
    };
    let sent = headers(&[("cookie", &pair(&cookie))]);
    let current = current_user(&db, &sent, 1_001).unwrap();
    assert_eq!(current.user.id, admin.id);
    assert!(current_user(&db, &sent, 1_000 + auth::SESSION_TTL as i64).is_none());
    assert!(AdminUser::from_current(CurrentUser {
        user: current.user.clone(),
        token_hash: Vec::new()
    })
    .is_ok());

    let cleared = logout(&mut db, &sent, false, &current);
    assert!(cleared.contains("Max-Age=0"));
    assert!(current_user(&db, &sent, 1_001).is_none());
}

#[test]
fn failed_logins_are_rate_limited() {
    let (mut db, _) = with_admin();
    let stand_in = auth::hash_password(auth::STAND_IN).unwrap();
    let mut limiter = LoginLimiter::default();
    let mut attempt = |password: &str, limiter: &mut LoginLimiter| {
        match login(
            &mut db,
            limiter,
            &headers(&[]),
            false,
            &form("admin", password),
            &stand_in,
            0,
            0,
        ) {
            Ok(Login::Failed { status, page, .. }) => (status, page.error.unwrap()),
            other => panic!("expected a refusal, got {other:?}"),
        }
    };
    for _ in 0..5 {
        assert_eq!(
            attempt("wrong-password", &mut limiter),
            (401, "Wrong username or password.".to_string())
        );
    }
    assert_eq!(
        attempt(PASSWORD, &mut limiter),
        (429, "Too many failed attempts. Try again in 1 seconds.".to_string())
    );
}

#[test]
fn cross_origin_posts_are_refused() {
    let post = |origin: Option<&str>| {
        let mut pairs = vec![("host", "printhub:8080")];
        if let Some(origin) = origin {
            pairs.push(("origin", origin));
        }
        auth::same_origin(&headers(&pairs), false)
    };
    assert!(!post(None));
    assert!(!post(Some("http://evil.example")));
    assert!(post(Some("http://printhub:8080")));
}

#[test]
fn invite_creates_a_member_without_admin_rights() {
    let (mut db, admin) = with_admin();
    let grants = no_grants();
    let asked = headers(&[("host", "printhub.local")]);
    let page = admin::create_invite(
        &mut db,
        &grants,
        &asked,
        false,
        &admin,
        &InviteForm { role: "member".to_string() },
        &utc(),
        100,
    )
    .unwrap();
    let link = page.link.unwrap();
    assert_eq!(link.what, "Invite link for a new member.");
    let token = link.url.strip_prefix("http://printhub.local/invite/").unwrap().to_string();
    assert_eq!(token.len(), 64);
    assert_eq!(page.invites[0].kind, "Invite as member");

    assert!(invite_page(&db, &token, 200).is_ok());
    let filled = |username: &str, confirm: &str| RedeemForm {
        username: username.to_string(),
        password: "sam-password-1".to_string(),
        confirm: confirm.to_string(),
    };
    let mut submit = |db: &mut Accounts, form: RedeemForm| {
        redeem(db, &headers(&[]), false, &token, &form, 200)
    };
    let Ok(Redeemed::Retry(retry)) = submit(&mut db, filled("sam", "different-one")) else {
        panic!("the passwords differ");
    };
    assert_eq!(retry.error.as_deref(), Some("The passwords do not match."));
    let Ok(Redeemed::Retry(retry)) = submit(&mut db, filled("ADMIN", "sam-password-1")) else {
        panic!("the name is taken");
    };
    assert_eq!(retry.error.as_deref(), Some("That username is taken."));

    let Ok(Redeemed::Started(cookie)) = submit(&mut db, filled(" sam ", "sam-password-1")) else {
        panic!("the invite is good");
    };
    let sam = current_user(&db, &headers(&[("cookie", &pair(&cookie))]), 201).unwrap();
    assert_eq!(sam.user.username, "sam");
    assert_eq!(AdminUser::from_current(sam).err(), Some(AppError::Forbidden));

    let reused = submit(&mut db, filled("kim", "sam-password-1")).err().unwrap();
    assert_eq!(reused.status(), 400);
    assert_eq!(reused.message(), "this link is invalid, expired or already used");
}

#[test]
fn reset_links_are_for_those_who_exist() {
    let (mut db, admin) = with_admin();
    let sam = add_member(&mut db, "sam");
    let mut ask = |id: i64| {
        admin::reset_link(&mut db, &no_grants(), &headers(&[]), false, &admin, id, &utc(), 5)
    };
    assert_eq!(ask(99).err(), Some(AppError::NotFound));
    let page = ask(sam.id).unwrap();
    let link = page.link.unwrap();
    assert_eq!(link.what, "Password reset link for sam.");
    assert!(link.url.starts_with("http://localhost/invite/"));
    assert_eq!(page.invites[0].kind, "Password reset for sam");
    assert_eq!(admin::revoke_invite(&mut db, page.invites[0].id), "/admin/users?done=revoked");
    assert!(db.invites.is_empty());
}

#[test]
fn passwords_are_changed_with_the_current_one() {
    let (mut db, admin) = with_admin();
    let stand_in = auth::hash_password(auth::STAND_IN).unwrap();
    accounts::create_session(&mut db, b"here".to_vec(), admin.id, 0, 1_000).unwrap();
    accounts::create_session(&mut db, b"there".to_vec(), admin.id, 0, 1_000).unwrap();
    let current = CurrentUser {
        user: admin,
        token_hash: b"here".to_vec(),
    };
    let mut change = |current_password: &str, password: &str, confirm: &str| {
        let (status, page) = change_password(
            &mut db,
            &current,
            &PasswordForm {
                current: current_password.to_string(),
                password: password.to_string(),
                confirm: confirm.to_string(),
            },
            &stand_in,
        )
        .unwrap();
        (status, page.notice.or(page.error).unwrap())
    };
    assert_eq!(
        change("wrong", "new password 1", "new password 1"),
        (400, "The current password is wrong.".to_string())
    );
    assert_eq!(
        change(PASSWORD, "new password 1", "new password 2"),
        (400, "The new passwords do not match.".to_string())
    );
    assert_eq!(
        change(PASSWORD, "short", "short"),
        (400, "passwords need at least 10 characters (and at most 256 bytes)".to_string())
    );
    assert_eq!(
        change(PASSWORD, "new password 1", "new password 1"),
        (200, "Password changed. Other devices have been logged out.".to_string())
    );
    assert!(accounts::session_user(&db, b"here", 1).is_some());
    assert!(accounts::session_user(&db, b"there", 1).is_none());
}

#[test]
fn admins_cannot_be_made_members() {
    let (mut db, admin) = with_admin();
    let sam = add_member(&mut db, "sam");
    let role = |role: &str| RoleForm { role: role.to_string() };
    assert_eq!(
        admin::set_role(&mut db, admin.id, &role("member")),
        Ok("/admin/users?problem=admin-role")
    );
    assert!(accounts::user(&db, admin.id).unwrap().is_admin());
    assert_eq!(
        admin::set_role(&mut db, sam.id, &role("admin")),
        Ok("/admin/users?done=role")
    );
    assert!(accounts::user(&db, sam.id).unwrap().is_admin());
    assert_eq!(
        admin::set_role(&mut db, sam.id, &role("boss")),
        Err(AppError::BadRequest("unknown role \"boss\"".to_string()))
    );
    assert_eq!(admin::set_role(&mut db, 99, &role("admin")), Err(AppError::NotFound));
}

#[test]
fn nobody_disables_their_own_account() {
    let (mut db, admin) = with_admin();
    let sam = add_member(&mut db, "sam");
    let disabled = |disabled: bool| DisabledForm { disabled };
    assert_eq!(
        admin::set_disabled(&mut db, &admin, admin.id, &disabled(true)),
        Ok("/admin/users?problem=self-disable")
    );
    assert_eq!(
        admin::set_disabled(&mut db, &sam, admin.id, &disabled(true)),
        Ok("/admin/users?problem=last-admin")
    );
    assert_eq!(
        admin::set_disabled(&mut db, &admin, sam.id, &disabled(true)),
        Ok("/admin/users?done=disabled")
    );
    assert_eq!(
        admin::set_disabled(&mut db, &admin, sam.id, &disabled(false)),
        Ok("/admin/users?done=enabled")
    );
    assert_eq!(done_message("enabled"), Some("Account enabled."));
    assert_eq!(done_message("<script>"), None);
    assert_eq!(
        problem_message("last-admin"),
        Some("The last active admin cannot be demoted or disabled.")
    );
}

#[test]
fn only_permitted_members_record_the_mounted_nozzle() {
    let (mut db, admin) = with_admin();
    let sam = add_member(&mut db, "sam");
    let mut grants = no_grants();
    let mut queue = Jobs::new();
    let mut record = |grants: &Grants, user: &User, nozzle: &str| {
        set_nozzle(&mut queue, grants, &NozzleForm { nozzle: nozzle.to_string() }, user, 7)
    };
    assert_eq!(record(&grants, &sam, "0.6"), Err(AppError::Forbidden));

    let ticked = |names: &[&str]| PermissionsForm {
        permission: names.iter().map(|name| name.to_string()).collect(),
    };
    assert_eq!(
        admin::set_permissions(&db, &mut grants, &admin, sam.id, &ticked(&["set_nozzle"]), 5),
        Ok("/admin/users?done=permissions")
    );
    assert_eq!(record(&grants, &sam, "0.6"), Ok("/"));
    let page = admin::users_page(
        &db,
        &grants,
        &admin,
        &admin::Outcome { done: Some("permissions".to_string()), problem: None },
        &utc(),
        9,
    );
    assert_eq!(page.notice, Some("Permissions changed."));
    assert!(page.users[0].is_me && page.users[0].permissions.is_empty());
    assert!(page.users[1].permissions[0].granted);
    assert_eq!(page.users[1].permissions[1].label, "Pause or stop any print");

    admin::set_permissions(&db, &mut grants, &admin, sam.id, &ticked(&[]), 6).unwrap();
    assert_eq!(record(&grants, &sam, "0.4"), Err(AppError::Forbidden));
    assert_eq!(record(&grants, &admin, "0.8"), Ok("/"), "admins need no grant");
    assert_eq!(
        record(&grants, &admin, "0.5"),
        Err(AppError::BadRequest("unknown nozzle \"0.5\"".to_string()))
    );
    assert_eq!(
        admin::set_permissions(&db, &mut grants, &admin, sam.id, &ticked(&["fly"]), 6),
        Err(AppError::BadRequest("unknown permission \"fly\"".to_string()))
    );
    assert_eq!(
        admin::set_permissions(&db, &mut grants, &admin, 99, &ticked(&[]), 6),
        Err(AppError::NotFound)
    );
    let choices = nozzle_choices(Nozzle::Mm06);
    assert_eq!(choices.len(), 4);
    assert!(choices[2].selected && choices[2].value == "0.6");
}

#[test]
fn a_picked_theme_recolours_every_page_for_that_user_only() {
    let (mut db, admin) = with_admin();
    let sam = add_member(&mut db, "sam");
    let mut themes = Themes { picked: Vec::new() };
    let pick = |theme: &str| ThemeForm { theme: theme.to_string() };
    let (status, page) = change_theme(&mut themes, &sam, &pick("docker"));
    assert_eq!((status, page.notice.as_deref()), (200, Some("Theme changed.")));
    let (status, page) = change_theme(&mut themes, &sam, &pick("neon"));
    assert_eq!((status, page.error.as_deref()), (400, Some("That theme does not exist.")));
    assert_eq!(themes.of(sam.id), Theme::Docker);
    assert_eq!(themes.of(admin.id).as_str(), "printhub");
}

fn add_job(db: &mut Jobs, owner: &User) -> i64 {
    jobs::create(
        db,
        NewJob {
            owner: (owner.id, owner.username.clone()),
            name: "benchy.gcode".to_string(),
            source: Source::Gcode,
            process_profile: None,
            filament_profile: None,
            supports: None,
            infill_percent: None,
            scale_percent: None,
        },
        1,
    )
}

fn advance(db: &mut Jobs, id: i64, states: &[JobState]) {
    for step in states.windows(2) {
        jobs::transition(db, id, step[0], step[1], None, 2).unwrap();
    }
}

const TO_PRINTING: [JobState; 4] = [
    JobState::AwaitingConfirm,
    JobState::Queued,
    JobState::Uploading,
    JobState::Printing,
];

#[test]
fn anyone_logged_in_switches_the_light() {
    let (mut people, _) = with_admin();
    let sam = add_member(&mut people, "sam");
    let allowed = may_control(&Jobs::new(), &no_grants(), &sam);
    assert!(!allowed);
    assert_eq!(control("light-on", allowed, true), Ok(Ok(Control::Light(true))));
    assert_eq!(Control::Light(true).method(), 1029);
    assert_eq!(control_answer(Control::Light(true), Ok(())).text, "Light on.");
    assert_eq!(control_answer(Control::Light(false), Ok(())).text, "Light off.");
    assert_eq!(
        control("pause", allowed, true),
        Err(AppError::Forbidden),
        "the light is the only control a member holds with no job printing"
    );
}

#[test]
fn controlling_another_member_s_print_needs_the_permission() {
    let (mut people, admin) = with_admin();
    let sam = add_member(&mut people, "sam");
    let kim = add_member(&mut people, "kim");
    let mut grants = no_grants();
    let mut db = Jobs::new();
    let id = add_job(&mut db, &sam);
    advance(&mut db, id, &TO_PRINTING);

    assert!(may_control(&db, &grants, &sam), "one can always stop their own print");
    assert!(!may_control(&db, &grants, &kim));
    assert_eq!(
        cancel_job(&mut db, &kim, false, id, 3),
        Cancelled::Refused(AppError::Forbidden)
    );
    assert_eq!(
        control("stop", may_control(&db, &grants, &kim), true),
        Err(AppError::Forbidden)
    );

    accounts::set_permissions(&mut grants, kim.id, &[Permission::ControlPrint], admin.id, 4);
    assert!(matches!(cancel_job(&mut db, &kim, true, id, 5), Cancelled::Stop(_)));
    assert_eq!(
        control("stop", may_control(&db, &grants, &kim), true),
        Ok(Ok(Control::Stop))
    );
    assert_eq!(
        control("pause", may_control(&db, &grants, &kim), true),
        Ok(Ok(Control::Pause))
    );
}

#[test]
fn admin_can_pause_a_running_print() {
    let offline = control("pause", true, false).unwrap().err().unwrap();
    assert_eq!(
        (offline.class, offline.text.as_str()),
        ("error", "The printer is not connected.")
    );
    assert_eq!(control("fly", true, true), Err(AppError::NotFound));
    let refused = control_answer(
        Control::Pause,
        Err(CommandError::Printer { method: 1021, code: 1010 }),
    );
    assert!(refused.text.starts_with("The printer refused: "), "{}", refused.text);
    assert_eq!(control_answer(Control::Pause, Ok(())).text, "Pause sent.");
    assert_eq!(
        live::camera_unavailable("no frame").message(),
        "The camera is unavailable: no frame"
    );
}

#[test]
fn job_files_download_under_the_uploaded_name() {
    let (_, admin) = with_admin();
    let mut db = Jobs::new();
    let id = add_job(&mut db, &admin);
    assert_eq!(download_name("a cube!.gcode", id, "gcode"), "a cube_.gcode");
    let FileKind::File { path, disposition, .. } =
        job_file(&db, id, "job.gcode", "/data").unwrap()
    else {
        panic!("G-code is a file");
    };
    assert_eq!(path, format!("/data/jobs/{id}/job.gcode"));
    assert_eq!(disposition, "attachment; filename=\"benchy.gcode\"");
    assert_eq!(job_file(&db, id, "preview.png", "/data"), Ok(FileKind::Preview));
    assert_eq!(job_file(&db, id, "passwd", "/data"), Err(AppError::NotFound));
    assert_eq!(job_file(&db, 99, "job.gcode", "/data"), Err(AppError::NotFound));
}

#[test]
fn jobs_are_confirmed_moved_and_queued_again() {
    let (mut people, admin) = with_admin();
    let sam = add_member(&mut people, "sam");
    let kim = add_member(&mut people, "kim");
    let mut store = Inventory::new();
    let spool = inventory::create_spool(
        &mut store,
        inventory::SpoolFields {
            material: "PLA".to_string(),
            brand: String::new(),
            color_name: String::new(),
            color_hex: "#000000".to_string(),
            price_cents: None,
            initial_mg: 1_000_000,
            notes: String::new(),
        },
        None,
        1,
    );
    let mut db = Jobs::new();
    let id = add_job(&mut db, &sam);
    let info = printhub::gcode::GcodeInfo {
        generator: String::new(),
        printer_model: String::new(),
        nozzle: String::new(),
        plate: String::new(),
        estimated_seconds: None,
        layers: None,
        tools: vec![printhub::gcode::ToolUse {
            index: 0,
            material: "PLA".to_string(),
            color: "#000000".to_string(),
            mg: 5_000,
            profile: String::new(),
        }],
    };
    jobs::store_gcode_info(&mut db, id, &info, None);
    let mut fields = Fields::new();
    assert_eq!(
        confirm_job(&mut db, &store, &kim, id, &fields, 2),
        Confirmed::Refused(AppError::Forbidden)
    );
    assert!(matches!(
        confirm_job(&mut db, &store, &sam, id, &fields, 2),
        Confirmed::Missing(_)
    ));
    fields.insert("spool_0".to_string(), spool.to_string());
    assert_eq!(
        confirm_job(&mut db, &store, &sam, id, &fields, 2),
        Confirmed::Queued("/jobs?done=queued")
    );
    assert_eq!(jobs::tools(&db, id)[0].spool_id, Some(spool));

    let second = add_job(&mut db, &sam);
    advance(&mut db, second, &TO_PRINTING[..2]);
    move_job(&mut db, second, &MoveForm { direction: "up".to_string() });
    assert_eq!(jobs::in_state(&db, JobState::Queued)[0].id, second);
    assert_eq!(
        cancel_job(&mut db, &sam, false, second, 3),
        Cancelled::Done("/jobs?done=cancelled")
    );

    advance(&mut db, id, &[JobState::Queued, JobState::Uploading, JobState::Failed]);
    assert_eq!(
        requeue_job(&mut db, &sam, id, true, 4),
        Ok("/jobs?done=requeued")
    );
    assert_eq!(mark_bed_clear(&mut db, &admin, 5), "/jobs?done=bed");
    assert!(jobs::bed_clear(&db));
}

#[test]
fn file_names_lose_their_directories() {
    assert_eq!(clean_file_name("C:\\models\\benchy.stl"), "benchy.stl");
    assert_eq!(clean_file_name("../../etc/passwd"), "passwd");
    assert_eq!(clean_file_name(&"a".repeat(300)).len(), 120);
}

#[test]
fn uploads_are_limited_and_told_apart() {
    let mut upload = Upload::new();
    assert_eq!(upload.received(true).unwrap_err(), "Choose a file to upload.");
    upload.receive(1_048_576, 2_097_152).unwrap();
    assert_eq!(
        upload.receive(1_048_577, 2_097_152).unwrap_err(),
        "The file is larger than 2 MB."
    );
    assert!(upload.received(true).is_ok());
    assert_eq!(upload_kind("Cube.STL"), Ok(Source::Stl));
    assert_eq!(upload_kind("cube.gcode"), Ok(Source::Gcode));
    assert!(upload_kind("cube.3mf").is_err());
    assert_eq!(parse_scale(""), Ok(SCALE_MAX));
    assert_eq!(parse_scale("50,5"), Ok(505 * SCALE_PERCENT / 10));
    assert!(parse_scale("101").is_err());
    assert_eq!(capitalise("äh"), "Äh.");
    let (_, admin) = with_admin();
    let empty = printhub::gcode::GcodeInfo {
        generator: String::new(),
        printer_model: String::new(),
        nozzle: String::new(),
        plate: String::new(),
        estimated_seconds: None,
        layers: None,
        tools: Vec::new(),
    };
    assert!(create_gcode_job(&empty, &admin, "x.gcode").is_err());
}

#[test]
fn sizes_and_ages_read_naturally() {
    assert_eq!(size(512), "512 B");
    assert_eq!(size(40 * 1024), "40 KB");
    assert_eq!(size(34 * 1024 * 1024 + 300 * 1024), "34.3 MB");
    assert_eq!(size(3 * 1024 * 1024 * 1024), "3.00 GB");
    assert_eq!(age(3600), "today");
    assert_eq!(age(86_400 + 5), "1 day");
    assert_eq!(age(30 * 86_400), "30 days");
    assert_eq!(size(1_536), "2 KB", "halves go to the even neighbour");
    assert_eq!(size(2_560), "2 KB", "halves go to the even neighbour");
}

#[test]
fn files_of_active_jobs_stay() {
    let (_, admin) = with_admin();
    let mut db = Jobs::new();
    let id = add_job(&mut db, &admin);
    assert_eq!(delete_files(&db, id), (false, "/admin/storage?problem=active"));
    assert_eq!(delete_files(&db, 99), (true, "/admin/storage?done=deleted"));
    let stored = |id: i64, bytes: u64| Stored { id, bytes, has_preview: true };
    let page = storage_page(
        vec![stored(99, 10), stored(id, 2_048)],
        &db,
        &utc(),
        86_401,
        &Outcome { done: None, problem: Some("active".to_string()) },
    );
    assert_eq!(page.total, "2 KB");
    assert_eq!(page.rows[0].name.as_deref(), Some("benchy.gcode"));
    assert_eq!((page.rows[0].age.as_str(), page.rows[0].removable), ("1 day", false));
    assert_eq!((page.rows[1].name.as_deref(), page.rows[1].removable), (None, true));
    assert_eq!(
        page.error,
        Some("That job is still in the queue or printing, so its files stay.")
    );
}

#[test]
fn the_layer_line_falls_back_to_the_job() {
    assert_eq!(layer_line(29, 267, None).as_deref(), Some("29 of 267"));
    assert_eq!(layer_line(29, 0, Some(267)).as_deref(), Some("29 of 267"));
    assert_eq!(layer_line(29, 0, None).as_deref(), Some("29"));
    assert_eq!(layer_line(29, 0, Some(0)).as_deref(), Some("29"));
    assert_eq!(layer_line(0, 0, Some(267)), None, "not printing yet");
}

fn status(code: i64, sub_status: i64) -> StatusView {
    StatusView {
        machine_status: MachineStatus {
            status: code,
            sub_status,
            ..MachineStatus::default()
        },
        ..StatusView::default()
    }
}

#[test]
fn labels_depend_on_state_before_sub_status() {
    assert_eq!(state_label(&status(2, sub::PAUSED)), "Paused");
    assert_eq!(state_label(&status(1, sub::COMPLETED)), "Finished");
    assert_eq!(state_label(&status(1, 0)), "Idle");
    // 2075 means "printing" only while printing; under updating it means "update failed".
    assert_eq!(state_label(&status(9, 2075)), "Updating firmware");
    assert_eq!(state_label(&status(42, 0)), "Unknown state 42");
}

#[test]
fn durations_round_up_to_the_minute() {
    assert_eq!(human_duration(0), "under a minute");
    assert_eq!(human_duration(1), "1 min");
    assert_eq!(human_duration(3600), "1 h");
    assert_eq!(human_duration(5 * 3600 + 61), "5 h 2 min");
}

#[test]
fn colors_are_sanitised() {
    assert_eq!(safe_color("#2850DF"), "#2850DF");
    assert_eq!(safe_color("2850df"), "#2850df");
    assert_eq!(safe_color("\" onload=\"x"), "#888888");
    assert_eq!(safe_color(""), "#888888");
}

#[test]
fn tray_labels_letter_the_unit() {
    assert_eq!(inventory::tray_label(0, 0), "A1");
    assert_eq!(inventory::tray_label(1, 3), "B4");
}

fn snapshot(status: Option<StatusView>, trays: Vec<Tray>) -> PrinterSnapshot {
    PrinterSnapshot {
        link: LinkState::Registered,
        status,
        canvas: Some(CanvasInfo {
            canvas_list: vec![Canvas {
                canvas_id: 0,
                connected: 1,
                tray_list: trays,
            }],
            ..CanvasInfo::default()
        }),
        attributes: None,
    }
}

#[test]
fn the_card_shows_the_print() {
    let mounted = MountedNozzle {
        nozzle: Nozzle::Mm04,
        recorded: None,
    };
    let mut running = status(2, sub::PAUSED);
    running.machine_status.progress = 120;
    running.print_status.remaining_time_sec = 61;
    running.extruder = Heater {
        temperature: tenths(2_146),
        target: tenths(2_200),
    };
    let seen = snapshot(Some(running), Vec::new());
    let card = PrinterCard::new(&seen, true, &[], &mounted, Some(10), &utc());
    assert!(card.connected && card.busy && card.paused && card.can_control);
    assert_eq!(card.progress, Some(100));
    assert_eq!(card.remaining.as_deref(), Some("2 min"));
    assert_eq!(card.nozzle.as_deref(), Some("215 °C, target 220 °C"));
    assert_eq!(card.nozzle_size, "0.4 mm");
    let silent = snapshot(None, Vec::new());
    let waiting = PrinterCard::new(&silent, true, &[], &mounted, None, &utc());
    assert_eq!(waiting.state, "Waiting for the printer");
    assert!(!waiting.can_control);
    assert_eq!(temperature(&Heater { temperature: tenths(254), target: tenths(0) }), "25 °C");
    assert_eq!(format_time(0, &utc()), "1970-01-01 00:00");
}

#[test]
fn members_edit_only_their_own_spools() {
    let (mut people, admin) = with_admin();
    let sam = add_member(&mut people, "sam");
    let kim = add_member(&mut people, "kim");
    let mut db = Inventory::new();
    let seen = snapshot(None, vec![Tray { tray_id: 0, status: 1, ..Tray::default() }]);
    let spool = |material: &str| SpoolForm {
        material: material.to_string(),
        color_hex: "#000000".to_string(),
        initial_grams: "1000".to_string(),
        price: "19.99".to_string(),
        ..SpoolForm::default()
    };
    assert!(matches!(
        filament::create_spool(&mut db, &people, &sam, &spool(" "), &seen, 1),
        Saved::Again(_)
    ));
    assert!(matches!(
        filament::create_spool(&mut db, &people, &sam, &spool("PLA"), &seen, 1),
        Saved::Done(_)
    ));
    let id = db.spools[0].id;
    assert_eq!(db.spools[0].owner, Some((sam.id, "sam".to_string())), "sam owns what sam added");
    assert_eq!(db.spools[0].price_cents, Some(1_999));
    assert_eq!(
        filament::update_spool(&mut db, &people, &kim, id, &spool("PETG")),
        Saved::Refused(AppError::Forbidden)
    );
    assert!(matches!(
        filament::update_spool(&mut db, &people, &admin, id, &spool("PETG")),
        Saved::Done(_)
    ));
    assert!(matches!(
        filament::weigh_in(&mut db, &kim, id, &WeighForm { grams: "800".to_string() }, 2),
        Saved::Done(_)
    ));
    assert_eq!(db.spools[0].remaining_mg, 800_000);
    assert_eq!(
        filament::bind_tray(&mut db, &seen, 0, 0, BindForm { spool_id: id }, 3),
        Ok("/inventory?done=bound")
    );
    assert_eq!(filament::unbind_tray(&mut db, 0, 0), "/inventory?done=unbound");
    assert_eq!(
        filament::set_archived(&mut db, &kim, id, ArchivedForm { archived: true }),
        Err(AppError::Forbidden)
    );
    assert!(filament::set_archived(&mut db, &sam, id, ArchivedForm { archived: true }).is_ok());
    assert_eq!(ledger_change(12_400), "12 g used");
    assert_eq!(filament::refresh_trays(false), "/inventory?problem=offline");
}

#[test]
fn icons_and_scripts_have_their_types() {
    assert_eq!(content_type("logo.svg"), Some("image/svg+xml"));
    assert_eq!(content_type("icon-192.png"), Some("image/png"));
    assert_eq!(content_type("app.css"), Some("text/css"));
    assert_eq!(content_type("../secret"), None);
}

#[test]
fn the_first_admin_comes_from_the_configuration() {
    let mut db = Accounts::new();
    let admin = |username: &str, password: &str| {
        Some(AdminBootstrap {
            username: username.to_string(),
            password: password.to_string(),
        })
    };
    assert_eq!(app::bootstrap_admin(&mut db, &None, 1), Ok(Bootstrap::Missing));
    assert!(app::bootstrap_admin(&mut db, &admin("no good", PASSWORD), 1)
        .unwrap_err()
        .starts_with("ADMIN_USERNAME: "));
    assert!(app::bootstrap_admin(&mut db, &admin("alex", "short"), 1)
        .unwrap_err()
        .starts_with("ADMIN_PASSWORD: "));
    assert_eq!(app::bootstrap_admin(&mut db, &admin("alex", PASSWORD), 1), Ok(Bootstrap::Created));
    assert_eq!(accounts::active_admin_count(&db), 1);
    assert_eq!(app::bootstrap_admin(&mut db, &admin("sam", PASSWORD), 1), Ok(Bootstrap::Exists));
    let mut members = Accounts::new();
    add_member(&mut members, "alex");
    assert_eq!(
        app::bootstrap_admin(&mut members, &admin("alex", PASSWORD), 1).unwrap_err(),
        "creating admin account \"alex\": that username is taken"
    );
}

#[test]
fn addresses_put_brackets_round_ipv6() {
    assert_eq!(app::url_host("cc2.local"), "cc2.local");
    assert_eq!(app::url_host("fe80::1"), "[fe80::1]");
    assert_eq!(app::url_host("[fe80::1]"), "[fe80::1]");
    assert_eq!(app::upload_limit(200 * 1_048_576), 201 * 1_048_576);
    assert_eq!(app::upload_limit(u64::MAX), usize::MAX);
    assert_eq!(pages::FRONT, 5);
}

#[test]
fn scales_are_taken_as_floats_take_them() {
    for raw in [
        "1", "100", "99.99999", "0.99999", "0.99999999999999999", "0.9999999999999999",
        "0.99999999999999994448884876874", "0.99999999999999994448884876875", "100.00000000000001",
        "100.000000000000007", "100.0000000000000072", "99.999999999999999", "1e2", "10e-1",
        "1e400", "1e-400", "-50", "+50", "33.333", ".5e2", "nan", "inf", "5x", "100.1",
    ] {
        let float = raw.parse::<f64>().ok().filter(|n| *n >= 1.0 && *n <= 100.0);
        let read = parse_scale(raw).ok();
        assert_eq!(read.is_some(), float.is_some(), "{raw}");
        assert_eq!(read == Some(SCALE_MAX), float == Some(100.0), "{raw}");
    }
    assert_eq!(parse_scale("99.99999"), Ok(999_999_900_000_000_000));
    assert_eq!(parse_scale("33,333%"), Ok(333_330_000_000_000_000));
    assert_eq!(placement_args(parse_scale("33.333").unwrap(), false), ["--scale", "0.33333"]);
    assert_eq!(placement_args(parse_scale("99.99999").unwrap(), false), ["--scale", "0.9999999"]);
}
