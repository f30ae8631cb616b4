//! What the server decides when it starts and while it runs beside the web interface.

use vstd::prelude::*;

use crate::accounts::{self, Accounts, Role};
use crate::auth;
use crate::cc2::client::{LinkState, PrinterSnapshot};
use crate::config::{self, AdminBootstrap, Config, Nozzle};
use crate::inventory::{self, Binding};
use crate::slicer::{self, Plate, SliceSettings, Slicer};
use crate::text;

verus! {

// ---------------------------------------------------------------------------------------------
// Addresses
// ---------------------------------------------------------------------------------------------

/// A host as it goes into a URL, with an IPv6 address in brackets.
pub open spec fn url_host_text(host: Seq<char>) -> Seq<char> {
    if host.contains(':') && host[0] != '[' {
        "["@ + host + "]"@
    } else {
        host
    }
}

pub fn url_host(host: &str) -> (r: String)
    ensures
        r@ == url_host_text(host@),
{
    let chars = text::chars(host);
    let colon = text::find_char(chars.as_slice(), ':', 0);
    proof {
        text::lemma_find(host@, ':', 0);
    }
    if colon < chars.len() && chars[0] != '[' {
        assert(host@[colon as int] == ':');
        let mut out = "[".to_string();
        out.append(host);
        out.append("]");
        out
    } else {
        host.to_string()
    }
}

/// Where the printer takes files.
pub fn upload_url(config: &Config) -> (r: String)
    ensures
        r@ == "http://"@ + url_host_text(config.printer_host@) + ":"@ + text::decimal(
            config.printer_upload_port as nat,
        ),
{
    let mut out = "http://".to_string();
    out.append(url_host(config.printer_host.as_str()).as_str());
    out.append(":");
    text::push_decimal(&mut out, config.printer_upload_port as u64);
    out
}

/// Where the printer's camera streams.
pub fn camera_url(config: &Config) -> (r: String)
    ensures
        r@ == "http://"@ + url_host_text(config.printer_host@) + ":"@ + text::decimal(
            config.printer_camera_port as nat,
        ) + "/"@,
{
    let mut out = "http://".to_string();
    out.append(url_host(config.printer_host.as_str()).as_str());
    out.append(":");
    text::push_decimal(&mut out, config.printer_camera_port as u64);
    out.append("/");
    out
}

/// Room for the multipart framing and form fields around an upload of `MAX_UPLOAD_MB`, so
/// a file just over the limit gets the upload handler's message rather than a bare 413.
pub const UPLOAD_OVERHEAD: usize = 1_048_576;

/// How large the body of an upload may be.
pub fn upload_limit(max_upload_bytes: u64) -> (r: usize)
    ensures
        r == if max_upload_bytes + UPLOAD_OVERHEAD > usize::MAX {
            usize::MAX as int
        } else {
            max_upload_bytes + UPLOAD_OVERHEAD
        },
{
    if max_upload_bytes > (usize::MAX - UPLOAD_OVERHEAD) as u64 {
        usize::MAX
    } else {
        max_upload_bytes as usize + UPLOAD_OVERHEAD
    }
}

// ---------------------------------------------------------------------------------------------
// The first admin
// ---------------------------------------------------------------------------------------------

/// What starting did about the admin account.
#[derive(Debug, Clone, Copy, PartialEq, Eq, Structural)]
pub enum Bootstrap {
    /// There is an admin already.
    Exists,
    /// There is no admin, and none is configured.
    Missing,
    Created,
}

/// The configured admin was added.
pub open spec fn is_admin_added(before: Accounts, after: Accounts, username: Seq<char>, hash: Seq<
    char,
>, now: i64) -> bool {
    let added = after.accounts@.last();
    &&& after.accounts@ == before.accounts@.push(added)
    &&& added.user.id == accounts::next_account_id(before.accounts@)
    &&& added.user.username@ == username
    &&& added.user.role == Role::Admin
    &&& !added.user.disabled
    &&& added.user.created_at == now
    &&& added.password_hash@ == hash
    &&& after.sessions@ == before.sessions@
    &&& after.invites@ == before.invites@
}

/// What is wrong with the configured admin.
pub open spec fn bootstrap_problem(admin: AdminBootstrap) -> Option<Seq<char>> {
    if !accounts::is_username(admin.username@) {
        Some(
            "ADMIN_USERNAME: "@
                + "usernames are 1 to 32 letters, digits, dots, dashes or underscores"@,
        )
    } else if !accounts::is_password(admin.password@) {
        Some("ADMIN_PASSWORD: "@ + "passwords need at least 10 characters (and at most 256 bytes)"@)
    } else {
        None
    }
}

/// Creates the configured admin once the password is hashed.
pub fn create_admin(db: &mut Accounts, admin: &AdminBootstrap, hash: String, now: i64) -> (r: Result<
    (),
    String,
>)
    requires
        accounts::next_account_id(old(db).accounts@) <= i64::MAX,
    ensures
        old(db).well_formed() ==> final(db).well_formed(),
        if accounts::name_at(old(db).accounts@, admin.username@, 0) < old(db).accounts@.len() {
            &&& r matches Err(said) && said@ == "creating admin account "@ + config::quoted(
                admin.username@,
            ) + ": "@ + "that username is taken"@
            &&& final(db).unchanged(*old(db))
        } else {
            &&& r is Ok
            &&& is_admin_added(*old(db), *final(db), admin.username@, hash@, now)
        },
{
    proof {
        accounts::lemma_name_at(db.accounts@, admin.username@, 0);
    }
    match accounts::create_user(db, admin.username.clone(), hash, Role::Admin, now) {
        Ok(_) => Ok(()),
        Err(error) => {
            let mut said = "creating admin account ".to_string();
            config::push_quoted(&mut said, admin.username.as_str());
            said.append(": ");
            said.append(error.message());
            Err(said)
        },
    }
}

/// Makes sure that there is an admin, from the configuration if need be.
pub fn bootstrap_admin(db: &mut Accounts, admin: &Option<AdminBootstrap>, now: i64) -> (r: Result<
    Bootstrap,
    String,
>)
    requires
        accounts::next_account_id(old(db).accounts@) <= i64::MAX,
    ensures
        old(db).well_formed() ==> final(db).well_formed(),
        r == Ok::<Bootstrap, String>(Bootstrap::Created) ==> accounts::active_admins(
            final(db).accounts@,
        ) == 1,
        if accounts::active_admins(old(db).accounts@) > 0 {
            r == Ok::<Bootstrap, String>(Bootstrap::Exists) && final(db).unchanged(*old(db))
        } else {
            match *admin {
                None => r == Ok::<Bootstrap, String>(Bootstrap::Missing) && final(db).unchanged(
                    *old(db),
                ),
                Some(admin) => match bootstrap_problem(admin) {
                    Some(problem) => {
                        &&& r matches Err(said) && said@ == problem
                        &&& final(db).unchanged(*old(db))
                    },
                    None => match r {
                        Ok(outcome) => outcome == Bootstrap::Created && accounts::name_at(
                            old(db).accounts@,
                            admin.username@,
                            0,
                        ) >= old(db).accounts@.len() && exists|hash: Seq<char>|
                            auth::hashes_to(admin.password@, hash) && #[trigger] is_admin_added(
                                *old(db),
                                *final(db),
                                admin.username@,
                                hash,
                                now,
                            ),
                        Err(said) => {
                            &&& text::starts_with(said@, "hashing password: "@)
                                || accounts::name_at(old(db).accounts@, admin.username@, 0) < old(
                                db).accounts@.len() && said@ == "creating admin account "@
                                + config::quoted(admin.username@) + ": "@ + "that username is taken"@
                            &&& final(db).unchanged(*old(db))
                        },
                    },
                },
            }
        },
{
    if accounts::active_admin_count(db) > 0 {
        return Ok(Bootstrap::Exists);
    }
    let admin = match admin {
        Some(admin) => admin,
        None => {
            return Ok(Bootstrap::Missing);
        },
    };
    if let Err(message) = accounts::validate_username(admin.username.as_str()) {
        let mut said = "ADMIN_USERNAME: ".to_string();
        said.append(message.as_str());
        return Err(said);
    }
    if let Err(message) = accounts::validate_password(admin.password.as_str()) {
        let mut said = "ADMIN_PASSWORD: ".to_string();
        said.append(message.as_str());
        return Err(said);
    }
    let hash = match auth::hash_password(admin.password.as_str()) {
        Ok(hash) => hash,
        Err(said) => {
            return Err(said);
        },
    };
    match create_admin(db, admin, hash, now) {
        Ok(()) => {
            assert(db.accounts@.drop_last() =~= old(db).accounts@);
            Ok(Bootstrap::Created)
        },
        Err(said) => Err(said),
    }
}

// ---------------------------------------------------------------------------------------------
// Trays
// ---------------------------------------------------------------------------------------------

/// The trays whose bindings are to be dropped, because the printer reports them empty: a spool
/// that was taken out does not stay listed as loaded. A printer that cannot be reached says
/// nothing.
pub fn emptied_trays(snapshot: &PrinterSnapshot, bindings: &[Binding]) -> (r: Vec<(i64, i64)>)
    ensures
        match (snapshot.link, snapshot.canvas) {
            (LinkState::Registered, Some(canvas)) => r@ == bindings@.filter(
                inventory::emptied(canvas),
            ).map_values(|b: Binding| (b.canvas_id, b.tray_id)),
            _ => r@ == Seq::<(i64, i64)>::empty(),
        },
{
    match (&snapshot.link, &snapshot.canvas) {
        (LinkState::Registered, Some(canvas)) => inventory::emptied_bindings(canvas, bindings),
        _ => Vec::new(),
    }
}

// ---------------------------------------------------------------------------------------------
// The self-test of the slicer
// ---------------------------------------------------------------------------------------------

/// What the test cube is sliced with.
pub fn selftest_settings(nozzle: Nozzle) -> (r: SliceSettings)
    ensures
        r.nozzle == nozzle,
        r.plate == Plate::TexturedPei,
        r.process@ == slicer::standard_process(nozzle),
        r.filament@ == "Elegoo PLA @ECC2"@,
        r.color_hex@ == "#2850DF"@,
        !r.supports,
        r.infill_percent == 15,
{
    SliceSettings {
        nozzle,
        plate: Plate::TexturedPei,
        process: slicer::default_process(nozzle),
        filament: "Elegoo PLA @ECC2".to_string(),
        color_hex: "#2850DF".to_string(),
        supports: false,
        infill_percent: 15,
    }
}

pub open spec fn missing_profile(kind: Seq<char>, name: Seq<char>, nozzle: Nozzle) -> Seq<char> {
    "no "@ + kind + " profile "@ + config::quoted(name) + " for "@ + slicer::machine_title(nozzle)
}

fn contains(names: &Vec<String>, name: &str) -> (r: bool)
    ensures
        r == text::views(names@).contains(name@),
{
    let ghost shown = text::views(names@);
    let mut i: usize = 0;
    while i < names.len()
        invariant
            i <= names@.len(),
            shown == text::views(names@),
            forall|k: int| 0 <= k < i ==> #[trigger] shown[k] != name@,
        decreases names.len() - i,
    {
        if text::same(names[i].as_str(), name) {
            assert(shown[i as int] == name@);
            return true;
        }
        i += 1;
    }
    false
}

fn missing_message(kind: &str, name: &str, nozzle: Nozzle) -> (r: String)
    ensures
        r@ == missing_profile(kind@, name@, nozzle),
{
    let mut out = "no ".to_string();
    out.append(kind);
    out.append(" profile ");
    config::push_quoted(&mut out, name);
    out.append(" for ");
    out.append(slicer::machine_name(nozzle).as_str());
    out
}

/// An incompatible profile otherwise surfaces as a bare exit status from the slicer, so it is
/// looked for first.
pub fn selftest_problem(slicer: &Slicer, settings: &SliceSettings) -> (r: Option<String>)
    ensures
        ({
            let library = slicer.library.shown();
            let machine = slicer::machine_title(settings.nozzle);
            text::opt_view(r) == if !slicer::compatible_names(
                library,
                "process"@,
                machine,
            ).contains(settings.process@) {
                Some(missing_profile("process"@, settings.process@, settings.nozzle))
            } else if !slicer::compatible_names(library, "filament"@, machine).contains(
                settings.filament@,
            ) {
                Some(missing_profile("filament"@, settings.filament@, settings.nozzle))
            } else {
                None
            }
        }),
{
    let processes = slicer.processes(settings.nozzle);
    if !contains(&processes, settings.process.as_str()) {
        return Some(missing_message("process", settings.process.as_str(), settings.nozzle));
    }
    let filaments = slicer.filaments(settings.nozzle);
    if !contains(&filaments, settings.filament.as_str()) {
        return Some(missing_message("filament", settings.filament.as_str(), settings.nozzle));
    }
    None
}

/// A host goes into a URL as it is, but for an IPv6 address without its brackets.
pub proof fn addresses_stand_in_brackets(host: Seq<char>)
    ensures
        !host.contains(':') ==> url_host_text(host) == host,
        host.contains(':') && host[0] == '[' ==> url_host_text(host) == host,
        host.contains(':') && host[0] != '[' ==> {
            let shown = url_host_text(host);
            &&& shown.len() == host.len() + 2
            &&& shown[0] == '[' && shown.last() == ']'
            &&& shown.subrange(1, shown.len() - 1) == host
        },
{
    reveal_strlit("[");
    reveal_strlit("]");
    let shown = "["@ + host + "]"@;
    assert(shown.subrange(1, shown.len() - 1) =~= host);
}

/// The configured admin needs a name and a password such as any user needs.
pub proof fn the_first_admin_is_a_user_like_any(admin: AdminBootstrap)
    ensures
        bootstrap_problem(admin) is None <==> accounts::is_username(admin.username@)
            && accounts::is_password(admin.password@),
{
}

/// The configured admin is one more account, an active admin; all else stays as it was.
pub proof fn the_first_admin_is_added(
    before: Accounts,
    after: Accounts,
    username: Seq<char>,
    hash: Seq<char>,
    now: i64,
    k: int,
)
    requires
        is_admin_added(before, after, username, hash, now),
    ensures
        after.accounts@.len() == before.accounts@.len() + 1,
        0 <= k < before.accounts@.len() ==> after.accounts@[k] == before.accounts@[k]
            && after.accounts@.last().user.id > before.accounts@[k].user.id,
        after.accounts@.last().user.role == Role::Admin,
        !after.accounts@.last().user.disabled,
        after.accounts@.last().user.username@ == username,
        after.sessions@ == before.sessions@,
{
    accounts::new_numbers_are_above_all_others(before.accounts@, before.invites@, k);
}

} // verus!
