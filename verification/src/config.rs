//! Runtime configuration, read once from the environment at startup.

use vstd::prelude::*;

use crate::decimal;
use crate::float;
use crate::text;
use crate::zone::Zone;

verus! {

/// What `{:?}` writes for a string: the text in double quotes, with escapes where needed.
pub uninterp spec fn quoted(s: Seq<char>) -> Seq<char>;

/// Formats a string with its `std::fmt::Debug` implementation. The result depends on the text
/// alone.
#[verifier::external_body]
pub(crate) fn quote(s: &str) -> (r: String)
    ensures
        r@ == quoted(s@),
{
    format!("{s:?}")
}

#[derive(Debug, Clone, PartialEq, Eq)]
pub struct ConfigError {
    pub var: &'static str,
    pub message: String,
}

impl ConfigError {
    /// The variable, and what is wrong with it.
    pub fn text(&self) -> (r: String)
        ensures
            r@ == self.var@ + ": "@ + self.message@,
    {
        let mut out = self.var.to_string();
        out.append(": ");
        out.append(self.message.as_str());
        out
    }
}

/// Nozzle diameters OrcaSlicer ships Centauri Carbon 2 machine profiles for.
#[derive(Debug, Clone, Copy, PartialEq, Eq, Structural)]
pub enum Nozzle {
    Mm02,
    Mm04,
    Mm06,
    Mm08,
}

impl Nozzle {
    pub const ALL: [Nozzle; 4] = [Nozzle::Mm02, Nozzle::Mm04, Nozzle::Mm06, Nozzle::Mm08];

    pub open spec fn name(self) -> Seq<char> {
        match self {
            Nozzle::Mm02 => "0.2"@,
            Nozzle::Mm04 => "0.4"@,
            Nozzle::Mm06 => "0.6"@,
            Nozzle::Mm08 => "0.8"@,
        }
    }

    pub open spec fn named(raw: Seq<char>) -> Option<Nozzle> {
        if raw == "0.2"@ {
            Some(Nozzle::Mm02)
        } else if raw == "0.4"@ {
            Some(Nozzle::Mm04)
        } else if raw == "0.6"@ {
            Some(Nozzle::Mm06)
        } else if raw == "0.8"@ {
            Some(Nozzle::Mm08)
        } else {
            None
        }
    }

    pub open spec fn diameter(self) -> u64 {
        match self {
            Nozzle::Mm02 => 200,
            Nozzle::Mm04 => 400,
            Nozzle::Mm06 => 600,
            Nozzle::Mm08 => 800,
        }
    }

    /// The diameter as written in OrcaSlicer's profile names, e.g. `0.4`.
    pub fn as_str(self) -> (r: &'static str)
        ensures
            r@ == self.name(),
    {
        match self {
            Nozzle::Mm02 => "0.2",
            Nozzle::Mm04 => "0.4",
            Nozzle::Mm06 => "0.6",
            Nozzle::Mm08 => "0.8",
        }
    }

    pub fn micrometres(self) -> (r: u64)
        ensures
            r == self.diameter(),
    {
        match self {
            Nozzle::Mm02 => 200,
            Nozzle::Mm04 => 400,
            Nozzle::Mm06 => 600,
            Nozzle::Mm08 => 800,
        }
    }

    pub fn parse(raw: &str) -> (r: Option<Nozzle>)
        ensures
            r == Nozzle::named(raw@),
    {
        if text::same(raw, "0.2") {
            Some(Nozzle::Mm02)
        } else if text::same(raw, "0.4") {
            Some(Nozzle::Mm04)
        } else if text::same(raw, "0.6") {
            Some(Nozzle::Mm06)
        } else if text::same(raw, "0.8") {
            Some(Nozzle::Mm08)
        } else {
            None
        }
    }
}

/// A nozzle is read back from its name, and from nothing else; no two have the same diameter.
pub proof fn nozzle_names_round_trip(a: Nozzle, b: Nozzle, raw: Seq<char>)
    ensures
        Nozzle::named(a.name()) == Some(a),
        Nozzle::named(raw) == Some(a) ==> raw == a.name(),
        a.diameter() == b.diameter() ==> a == b,
{
    reveal_strlit("0.2");
    reveal_strlit("0.4");
    reveal_strlit("0.6");
    reveal_strlit("0.8");
    assert("0.2"@[2] == '2' && "0.4"@[2] == '4' && "0.6"@[2] == '6' && "0.8"@[2] == '8');
}

#[derive(Debug, Clone, PartialEq, Eq)]
pub struct AdminBootstrap {
    pub username: String,
    pub password: String,
}

pub struct Config {
    pub printer_host: String,
    pub printer_access_code: String,
    pub printer_sn: Option<String>,
    pub printer_mqtt_port: u16,
    pub printer_upload_port: u16,
    pub printer_camera_port: u16,
    /// Assumed mounted until someone records the nozzle on the dashboard.
    pub nozzle: Nozzle,
    pub listen_addr: String,
    pub data_dir: String,
    pub admin_bootstrap: Option<AdminBootstrap>,
    pub trust_proxy: bool,
    pub camera_enabled: bool,
    pub max_upload_bytes: u64,
    /// In seconds.
    pub slice_timeout: u64,
    /// In millionths.
    pub estimate_margin: u64,
    pub orca_slicer: String,
    /// OrcaSlicer's `resources/profiles/Elegoo` directory.
    pub orca_profiles: String,
    /// Schedule rules are wall-clock times in this zone. Without `TZ` it is the system's zone.
    pub timezone: Zone,
}

/// Printer firmware default when no access code has been set on the touchscreen.
pub const DEFAULT_ACCESS_CODE: &'static str = "123456";

/// The environment variables, as names and values. The first of a name counts.
pub struct Env {
    pub vars: Vec<(String, String)>,
}

/// What only the system can tell of the values: whether `LISTEN_ADDR` is the address of a
/// socket, which zone `TZ` names, and which zone holds without it.
pub struct Resolved {
    pub listen_addr_reads: bool,
    pub zone: Option<Zone>,
    pub system_zone: Zone,
}

/// The value of the first variable with the given name, from position `i` on.
pub open spec fn first_value(vars: Seq<(String, String)>, name: Seq<char>, i: int) -> Option<
    Seq<char>,
>
    decreases vars.len() - i,
{
    if i >= vars.len() {
        None
    } else if vars[i].0@ == name {
        Some(vars[i].1@)
    } else {
        first_value(vars, name, i + 1)
    }
}

impl Env {
    /// Unset and empty are the same thing.
    pub open spec fn value(self, var: Seq<char>) -> Option<Seq<char>> {
        match first_value(self.vars@, var, 0) {
            Some(value) if text::trim(value).len() > 0 => Some(value),
            _ => None,
        }
    }

    /// Unset and empty are the same thing, so `FOO=` in a compose file falls back to the default.
    /// Not trimmed: secrets may legitimately carry surrounding spaces.
    pub fn get(&self, var: &str) -> (r: Option<String>)
        ensures
            text::opt_view(r) == self.value(var@),
    {
        let mut i: usize = 0;
        while i < self.vars.len()
            invariant
                i <= self.vars@.len(),
                first_value(self.vars@, var@, 0) == first_value(self.vars@, var@, i as int),
            decreases self.vars.len() - i,
        {
            if text::same(self.vars[i].0.as_str(), var) {
                let value = &self.vars[i].1;
                if text::trim_str(value.as_str()).as_str().is_empty() {
                    return None;
                }
                return Some(value.clone());
            }
            i += 1;
        }
        None
    }

    /// The variable's value as `parse` reads it, without the white space around it, or the
    /// default where it is not set.
    pub fn parse<T, F: FnOnce(&str) -> Option<T>>(
        &self,
        var: &'static str,
        default: T,
        expected: &str,
        parse: F,
    ) -> (r: Result<T, ConfigError>)
        requires
            forall|s: &str| #[trigger] call_requires(parse, (s,)),
        ensures
            match self.value(var@) {
                None => r == Ok::<T, ConfigError>(default),
                Some(raw) => exists|s: &str, read: Option<T>| #[trigger]
                    call_ensures(parse, (s,), read) && s@ == text::trim(raw) && match read {
                        Some(value) => r == Ok::<T, ConfigError>(value),
                        None => r matches Err(error) && error.var == var && error.message@
                            == refusal(expected@, raw),
                    },
            },
    {
        let raw = match self.get(var) {
            Some(raw) => raw,
            None => {
                return Ok(default);
            },
        };
        let trimmed = text::trim_str(raw.as_str());
        match parse(trimmed.as_str()) {
            Some(value) => Ok(value),
            None => {
                let mut message = "expected ".to_string();
                message.append(expected);
                message.append(", got ");
                message.append(quote(raw.as_str()).as_str());
                Err(ConfigError { var, message })
            },
        }
    }
}

/// What is said of a value that does not read.
pub open spec fn refusal(expected: Seq<char>, raw: Seq<char>) -> Seq<char> {
    "expected "@ + expected + ", got "@ + quoted(raw)
}

// ---------------------------------------------------------------------------------------------
// Values
// ---------------------------------------------------------------------------------------------

pub open spec fn bool_of(raw: Seq<char>) -> Option<bool> {
    let s = text::lower(raw);
    if s == "true"@ || s == "1"@ || s == "yes"@ || s == "on"@ {
        Some(true)
    } else if s == "false"@ || s == "0"@ || s == "no"@ || s == "off"@ {
        Some(false)
    } else {
        None
    }
}

pub fn parse_bool(raw: &str) -> (r: Option<bool>)
    ensures
        r == bool_of(raw@),
{
    let lower = text::string(text::lower_chars(text::chars(raw).as_slice()).as_slice());
    let s = lower.as_str();
    if text::same(s, "true") || text::same(s, "1") || text::same(s, "yes") || text::same(s, "on") {
        Some(true)
    } else if text::same(s, "false") || text::same(s, "0") || text::same(s, "no") || text::same(
        s,
        "off",
    ) {
        Some(false)
    } else {
        None
    }
}

pub open spec fn port_of(raw: Seq<char>) -> Option<u16> {
    match text::parsed_unsigned(raw, 65_535) {
        Some(n) if n > 0 => Some(n as u16),
        _ => None,
    }
}

pub fn parse_port(raw: &str) -> (r: Option<u16>)
    ensures
        r == port_of(raw@),
{
    match text::parse_unsigned(text::chars(raw).as_slice(), 65_535) {
        Some(n) if n > 0 => Some(n as u16),
        _ => None,
    }
}

/// A number above 0 and a unit: `s`, `m` or `h`. The result is in seconds.
pub open spec fn duration_of(raw: Seq<char>) -> Option<u64> {
    let split = decimal::digits_end(raw, 0);
    if split >= raw.len() {
        None
    } else {
        let n = text::digits_value(raw.take(split)) as int;
        let unit = raw.skip(split);
        let seconds = if unit == "s"@ {
            n
        } else if unit == "m"@ {
            n * 60
        } else {
            n * 3600
        };
        if split == 0 || n == 0 || n > u64::MAX || seconds > u64::MAX || !(unit == "s"@ || unit
            == "m"@ || unit == "h"@) {
            None
        } else {
            Some(seconds as u64)
        }
    }
}

pub fn parse_duration(raw: &str) -> (r: Option<u64>)
    ensures
        r == duration_of(raw@),
{
    let all = text::chars(raw);
    let split = decimal::find_digits_end(all.as_slice(), 0);
    if split >= all.len() {
        return None;
    }
    let number = vstd::slice::slice_subrange(all.as_slice(), 0, split);
    let unit = text::string(vstd::slice::slice_subrange(all.as_slice(), split, all.len()));
    proof {
        assert(number@ =~= raw@.take(split as int));
        assert(unit@ =~= raw@.skip(split as int));
        assert forall|k: int| 0 <= k < number@.len() implies text::is_digit(#[trigger] number@[k]) by {
            assert(number@[k] == all@[k]);
        }
        if number@.len() > 0 {
            assert(text::is_digit(number@[0]));
        }
    }
    let n: u64 = match text::parse_unsigned(number, u64::MAX) {
        Some(n) if n > 0 => n,
        _ => {
            return None;
        },
    };
    if text::same(unit.as_str(), "s") {
        Some(n)
    } else if text::same(unit.as_str(), "m") {
        n.checked_mul(60)
    } else if text::same(unit.as_str(), "h") {
        n.checked_mul(3600)
    } else {
        None
    }
}

/// A whole number of megabytes above 0, in bytes.
pub open spec fn megabytes_of(raw: Seq<char>) -> Option<u64> {
    match text::parsed_unsigned(raw, u64::MAX as nat) {
        Some(n) if n > 0 && n * 1_048_576 <= u64::MAX => Some((n * 1_048_576) as u64),
        _ => None,
    }
}

fn parse_megabytes(raw: &str) -> (r: Option<u64>)
    ensures
        r == megabytes_of(raw@),
{
    match text::parse_unsigned(text::chars(raw).as_slice(), u64::MAX) {
        Some(n) if n > 0 => n.checked_mul(1_048_576),
        _ => None,
    }
}

/// A finite factor of at least 1, in millionths. Beyond 10^12 it makes no difference how large it
/// is: every job that takes a second ends beyond the calendar.
pub open spec fn margin_of(raw: Seq<char>) -> Option<u64> {
    match decimal::written(raw) {
        Some(number) if !number.negative && float::reaches_one(number) && float::is_finite(number) =>
            if number.floor(6) > 1_000_000_000_000_000_000 {
                Some(1_000_000_000_000_000_000)
            } else {
                Some((number.floor(6) + if number.rounds_up(6) { 1int } else { 0 }) as u64)
            },
        _ => None,
    }
}

fn parse_margin(raw: &str) -> (r: Option<u64>)
    ensures
        r == margin_of(raw@),
{
    let chars = text::chars(raw);
    match (decimal::read_scaled(chars.as_slice(), 6), float::reach(chars.as_slice())) {
        (Some(scaled), Some(reach)) => if !scaled.negative && reach.one && reach.finite {
            match scaled.floor {
                None => Some(1_000_000_000_000_000_000),
                Some(floor) => Some(
                    floor + if scaled.rounds_up {
                        1
                    } else {
                        0
                    },
                ),
            }
        } else {
            None
        },
        _ => None,
    }
}

// ---------------------------------------------------------------------------------------------
// The configuration
// ---------------------------------------------------------------------------------------------

pub open spec fn or_default<T>(
    value: Option<Seq<char>>,
    default: T,
    read: spec_fn(Seq<char>) -> Option<T>,
) -> Option<T> {
    match value {
        None => Some(default),
        Some(raw) => read(text::trim(raw)),
    }
}

impl Env {
    pub open spec fn port(self, var: Seq<char>, default: u16) -> Option<u16> {
        or_default(self.value(var), default, |s: Seq<char>| port_of(s))
    }

    pub open spec fn flag(self, var: Seq<char>, default: bool) -> Option<bool> {
        or_default(self.value(var), default, |s: Seq<char>| bool_of(s))
    }

    pub open spec fn nozzle(self) -> Option<Nozzle> {
        or_default(self.value("PRINTER_NOZZLE"@), Nozzle::Mm04, |s: Seq<char>| Nozzle::named(s))
    }

    pub open spec fn max_upload(self) -> Option<u64> {
        or_default(self.value("MAX_UPLOAD_MB"@), 209_715_200u64, |s: Seq<char>| megabytes_of(s))
    }

    pub open spec fn slice_timeout(self) -> Option<u64> {
        or_default(self.value("SLICE_TIMEOUT"@), 900u64, |s: Seq<char>| duration_of(s))
    }

    pub open spec fn estimate_margin(self) -> Option<u64> {
        or_default(self.value("ESTIMATE_MARGIN"@), 1_150_000u64, |s: Seq<char>| margin_of(s))
    }

    /// The variable, and that its value is not what was expected.
    pub open spec fn refused(self, var: Seq<char>, expected: Seq<char>) -> Option<
        (Seq<char>, Seq<char>),
    > {
        Some((var, refusal(expected, self.value(var)->0)))
    }

    /// The first variable that keeps the configuration from being read, and why.
    pub open spec fn problem(self, resolved: Resolved) -> Option<(Seq<char>, Seq<char>)> {
        let username = self.value("ADMIN_USERNAME"@);
        let password = self.value("ADMIN_PASSWORD"@);
        if self.value("PRINTER_HOST"@) is None {
            Some(("PRINTER_HOST"@, "required: the printer's hostname or IP address"@))
        } else if username is Some && password is None {
            Some(("ADMIN_PASSWORD"@, "required when ADMIN_USERNAME is set"@))
        } else if username is None && password is Some {
            Some(("ADMIN_USERNAME"@, "required when ADMIN_PASSWORD is set"@))
        } else if self.port("PRINTER_MQTT_PORT"@, 1883) is None {
            self.refused("PRINTER_MQTT_PORT"@, "a port number"@)
        } else if self.port("PRINTER_UPLOAD_PORT"@, 80) is None {
            self.refused("PRINTER_UPLOAD_PORT"@, "a port number"@)
        } else if self.port("PRINTER_CAMERA_PORT"@, 8080) is None {
            self.refused("PRINTER_CAMERA_PORT"@, "a port number"@)
        } else if self.nozzle() is None {
            self.refused("PRINTER_NOZZLE"@, "0.2, 0.4, 0.6 or 0.8"@)
        } else if self.value("LISTEN_ADDR"@) is Some && !resolved.listen_addr_reads {
            self.refused("LISTEN_ADDR"@, "an address like 0.0.0.0:8080"@)
        } else if self.flag("TRUST_PROXY"@, false) is None {
            self.refused("TRUST_PROXY"@, "true or false"@)
        } else if self.flag("CAMERA_ENABLED"@, true) is None {
            self.refused("CAMERA_ENABLED"@, "true or false"@)
        } else if self.max_upload() is None {
            self.refused("MAX_UPLOAD_MB"@, "a whole number of megabytes above 0"@)
        } else if self.slice_timeout() is None {
            self.refused("SLICE_TIMEOUT"@, "a duration like 90s, 15m or 1h"@)
        } else if self.estimate_margin() is None {
            self.refused("ESTIMATE_MARGIN"@, "a factor of at least 1.0, like 1.15"@)
        } else if self.value("TZ"@) is Some && resolved.zone is None {
            self.refused("TZ"@, "an IANA time zone like Europe/Berlin"@)
        } else {
            None
        }
    }
}

pub open spec fn text_or(value: Option<Seq<char>>, default: Seq<char>) -> Seq<char> {
    match value {
        Some(value) => value,
        None => default,
    }
}

impl Config {
    /// The configuration that an environment without problems gives.
    pub open spec fn reads(self, env: Env, resolved: Resolved) -> bool {
        &&& self.printer_host@ == text::trim(env.value("PRINTER_HOST"@)->0)
        &&& self.printer_access_code@ == text_or(env.value("PRINTER_ACCESS_CODE"@), "123456"@)
        &&& match env.value("PRINTER_SN"@) {
            Some(sn) => self.printer_sn is Some && self.printer_sn->0@ == text::trim(sn),
            None => self.printer_sn is None,
        }
        &&& Some(self.printer_mqtt_port) == env.port("PRINTER_MQTT_PORT"@, 1883)
        &&& Some(self.printer_upload_port) == env.port("PRINTER_UPLOAD_PORT"@, 80)
        &&& Some(self.printer_camera_port) == env.port("PRINTER_CAMERA_PORT"@, 8080)
        &&& Some(self.nozzle) == env.nozzle()
        &&& self.listen_addr@ == match env.value("LISTEN_ADDR"@) {
            Some(raw) => text::trim(raw),
            None => "0.0.0.0:8080"@,
        }
        &&& self.data_dir@ == text_or(env.value("DATA_DIR"@), "/data"@)
        &&& match (env.value("ADMIN_USERNAME"@), env.value("ADMIN_PASSWORD"@)) {
            (Some(username), Some(password)) => self.admin_bootstrap is Some
                && self.admin_bootstrap->0.username@ == text::trim(username)
                && self.admin_bootstrap->0.password@ == password,
            _ => self.admin_bootstrap is None,
        }
        &&& Some(self.trust_proxy) == env.flag("TRUST_PROXY"@, false)
        &&& Some(self.camera_enabled) == env.flag("CAMERA_ENABLED"@, true)
        &&& Some(self.max_upload_bytes) == env.max_upload()
        &&& Some(self.slice_timeout) == env.slice_timeout()
        &&& Some(self.estimate_margin) == env.estimate_margin()
        &&& self.orca_slicer@ == text_or(
            env.value("ORCA_SLICER"@),
            "/opt/orcaslicer/bin/orca-slicer"@,
        )
        &&& self.orca_profiles@ == text_or(
            env.value("ORCA_PROFILES"@),
            "/opt/orcaslicer/resources/profiles/Elegoo"@,
        )
        &&& self.timezone == match env.value("TZ"@) {
            Some(_) => resolved.zone->0,
            None => resolved.system_zone,
        }
    }

    pub fn from_lookup(env: &Env, resolved: Resolved) -> (r: Result<Config, ConfigError>)
        ensures
            match r {
                Err(error) => env.problem(resolved) == Some((error.var@, error.message@)),
                Ok(config) => env.problem(resolved) is None && config.reads(*env, resolved),
            },
    {
        let printer_host = match env.get("PRINTER_HOST") {
            Some(host) => text::trim_str(host.as_str()),
            None => {
                return Err(
                    ConfigError {
                        var: "PRINTER_HOST",
                        message: "required: the printer's hostname or IP address".to_string(),
                    },
                );
            },
        };
        let admin_bootstrap = match (env.get("ADMIN_USERNAME"), env.get("ADMIN_PASSWORD")) {
            (Some(username), Some(password)) => Some(
                AdminBootstrap { username: text::trim_str(username.as_str()), password },
            ),
            (None, None) => None,
            (Some(_), None) => {
                return Err(
                    ConfigError {
                        var: "ADMIN_PASSWORD",
                        message: "required when ADMIN_USERNAME is set".to_string(),
                    },
                );
            },
            (None, Some(_)) => {
                return Err(
                    ConfigError {
                        var: "ADMIN_USERNAME",
                        message: "required when ADMIN_PASSWORD is set".to_string(),
                    },
                );
            },
        };
        let printer_mqtt_port: u16 = env.parse(
            "PRINTER_MQTT_PORT",
            1883,
            "a port number",
            parse_port,
        )?;
        let printer_upload_port: u16 = env.parse(
            "PRINTER_UPLOAD_PORT",
            80,
            "a port number",
            parse_port,
        )?;
        let printer_camera_port: u16 = env.parse(
            "PRINTER_CAMERA_PORT",
            8080,
            "a port number",
            parse_port,
        )?;
        let nozzle = env.parse(
            "PRINTER_NOZZLE",
            Nozzle::Mm04,
            "0.2, 0.4, 0.6 or 0.8",
            Nozzle::parse,
        )?;
        let listen_addr_reads = resolved.listen_addr_reads;
        let read_addr = |raw: &str| -> (r: Option<String>)
            ensures
                r is Some <==> listen_addr_reads,
                r matches Some(addr) ==> addr@ == raw@,
            {
                if listen_addr_reads {
                    Some(raw.to_owned())
                } else {
                    None
                }
            };
        let listen_addr = env.parse(
            "LISTEN_ADDR",
            "0.0.0.0:8080".to_string(),
            "an address like 0.0.0.0:8080",
            read_addr,
        )?;
        let trust_proxy = env.parse("TRUST_PROXY", false, "true or false", parse_bool)?;
        let camera_enabled = env.parse("CAMERA_ENABLED", true, "true or false", parse_bool)?;
        let max_upload_bytes: u64 = env.parse(
            "MAX_UPLOAD_MB",
            209_715_200,
            "a whole number of megabytes above 0",
            parse_megabytes,
        )?;
        let slice_timeout: u64 = env.parse(
            "SLICE_TIMEOUT",
            900,
            "a duration like 90s, 15m or 1h",
            parse_duration,
        )?;
        let estimate_margin: u64 = env.parse(
            "ESTIMATE_MARGIN",
            1_150_000,
            "a factor of at least 1.0, like 1.15",
            parse_margin,
        )?;
        let Resolved { listen_addr_reads: _, zone, system_zone } = resolved;
        let read_zone = |_raw: &str| -> (r: Option<Zone>)
            ensures
                r == zone,
            { zone };
        let timezone = env.parse(
            "TZ",
            system_zone,
            "an IANA time zone like Europe/Berlin",
            read_zone,
        )?;
        Ok(
            Config {
                printer_host,
                printer_access_code: match env.get("PRINTER_ACCESS_CODE") {
                    Some(code) => code,
                    None => DEFAULT_ACCESS_CODE.to_string(),
                },
                printer_sn: match env.get("PRINTER_SN") {
                    Some(sn) => Some(text::trim_str(sn.as_str())),
                    None => None,
                },
                printer_mqtt_port,
                printer_upload_port,
                printer_camera_port,
                nozzle,
                listen_addr,
                data_dir: match env.get("DATA_DIR") {
                    Some(dir) => dir,
                    None => "/data".to_string(),
                },
                admin_bootstrap,
                trust_proxy,
                camera_enabled,
                max_upload_bytes,
                slice_timeout,
                estimate_margin,
                orca_slicer: match env.get("ORCA_SLICER") {
                    Some(path) => path,
                    None => "/opt/orcaslicer/bin/orca-slicer".to_string(),
                },
                orca_profiles: match env.get("ORCA_PROFILES") {
                    Some(path) => path,
                    None => "/opt/orcaslicer/resources/profiles/Elegoo".to_string(),
                },
                timezone,
            },
        )
    }
}

pub open spec fn opt_quoted(value: Option<Seq<char>>) -> Seq<char> {
    match value {
        Some(value) => "Some("@ + quoted(value) + ")"@,
        None => "None"@,
    }
}

pub open spec fn bool_text(value: bool) -> Seq<char> {
    if value { "true"@ } else { "false"@ }
}

pub open spec fn nozzle_variant(nozzle: Nozzle) -> Seq<char> {
    match nozzle {
        Nozzle::Mm02 => "Mm02"@,
        Nozzle::Mm04 => "Mm04"@,
        Nozzle::Mm06 => "Mm06"@,
        Nozzle::Mm08 => "Mm08"@,
    }
}

pub fn push_quoted(out: &mut String, value: &str)
    ensures
        final(out)@ == old(out)@ + quoted(value@),
{
    let text = quote(value);
    out.append(text.as_str());
}

fn push_opt_quoted(out: &mut String, value: Option<&str>)
    ensures
        final(out)@ == old(out)@ + opt_quoted(
            match value {
                Some(value) => Some(value@),
                None => None,
            },
        ),
{
    match value {
        Some(value) => {
            out.append("Some(");
            push_quoted(out, value);
            out.append(")");
        },
        None => {
            out.append("None");
        },
    }
    assert(out@ =~= old(out)@ + opt_quoted(
        match value {
            Some(value) => Some(value@),
            None => None,
        },
    ));
}

fn bool_str(value: bool) -> (r: &'static str)
    ensures
        r@ == bool_text(value),
{
    if value {
        "true"
    } else {
        "false"
    }
}

impl Config {
    /// The printer's side of the configuration, without the access code.
    pub open spec fn printer_text(self) -> Seq<char> {
        "Config { printer_host: "@ + quoted(self.printer_host@)
            + ", printer_access_code: \"<redacted>\", printer_sn: "@ + opt_quoted(
            text::opt_view(self.printer_sn),
        ) + ", printer_mqtt_port: "@ + text::decimal(self.printer_mqtt_port as nat)
            + ", printer_upload_port: "@ + text::decimal(self.printer_upload_port as nat)
            + ", printer_camera_port: "@ + text::decimal(self.printer_camera_port as nat)
            + ", nozzle: "@ + nozzle_variant(self.nozzle)
    }

    /// The server's side of the configuration, without the password of the first admin.
    pub open spec fn server_text(self) -> Seq<char> {
        ", listen_addr: "@ + self.listen_addr@ + ", data_dir: "@ + quoted(self.data_dir@)
            + ", admin_bootstrap: "@ + opt_quoted(
            match self.admin_bootstrap {
                Some(admin) => Some(admin.username@),
                None => None,
            },
        ) + ", trust_proxy: "@ + bool_text(self.trust_proxy) + ", camera_enabled: "@ + bool_text(
            self.camera_enabled,
        ) + ", max_upload_bytes: "@ + text::decimal(self.max_upload_bytes as nat)
            + ", slice_timeout: "@ + text::decimal(self.slice_timeout as nat)
            + "s, estimate_margin: "@ + text::decimal(self.estimate_margin as nat)
            + "e-6, orca_slicer: "@ + quoted(self.orca_slicer@) + ", orca_profiles: "@ + quoted(
            self.orca_profiles@,
        ) + ", timezone: "@ + opt_quoted(Some(self.timezone.name())) + " }"@
    }

    /// The configuration for a log, without its secrets.
    pub fn debug_text(&self) -> (r: String)
        ensures
            r@ == self.printer_text() + self.server_text(),
    {
        let mut out = "Config { printer_host: ".to_string();
        push_quoted(&mut out, self.printer_host.as_str());
        out.append(", printer_access_code: \"<redacted>\", printer_sn: ");
        push_opt_quoted(
            &mut out,
            match &self.printer_sn {
                Some(sn) => Some(sn.as_str()),
                None => None,
            },
        );
        out.append(", printer_mqtt_port: ");
        text::push_decimal(&mut out, self.printer_mqtt_port as u64);
        out.append(", printer_upload_port: ");
        text::push_decimal(&mut out, self.printer_upload_port as u64);
        out.append(", printer_camera_port: ");
        text::push_decimal(&mut out, self.printer_camera_port as u64);
        out.append(", nozzle: ");
        out.append(
            match self.nozzle {
                Nozzle::Mm02 => "Mm02",
                Nozzle::Mm04 => "Mm04",
                Nozzle::Mm06 => "Mm06",
                Nozzle::Mm08 => "Mm08",
            },
        );
        assert(out@ == self.printer_text());
        let mut rest = ", listen_addr: ".to_string();
        rest.append(self.listen_addr.as_str());
        rest.append(", data_dir: ");
        push_quoted(&mut rest, self.data_dir.as_str());
        rest.append(", admin_bootstrap: ");
        push_opt_quoted(
            &mut rest,
            match &self.admin_bootstrap {
                Some(admin) => Some(admin.username.as_str()),
                None => None,
            },
        );
        rest.append(", trust_proxy: ");
        rest.append(bool_str(self.trust_proxy));
        rest.append(", camera_enabled: ");
        rest.append(bool_str(self.camera_enabled));
        rest.append(", max_upload_bytes: ");
        text::push_decimal(&mut rest, self.max_upload_bytes);
        rest.append(", slice_timeout: ");
        text::push_decimal(&mut rest, self.slice_timeout);
        rest.append("s, estimate_margin: ");
        text::push_decimal(&mut rest, self.estimate_margin);
        rest.append("e-6, orca_slicer: ");
        push_quoted(&mut rest, self.orca_slicer.as_str());
        rest.append(", orca_profiles: ");
        push_quoted(&mut rest, self.orca_profiles.as_str());
        rest.append(", timezone: ");
        push_opt_quoted(&mut rest, Some(self.timezone.id()));
        rest.append(" }");
        out.append(rest.as_str());
        out
    }
}

/// What is logged of a configuration does not depend on its secrets.
pub proof fn debug_redacts_secrets(a: Config, access_code: String, password: String)
    ensures
        ({
            let b = Config {
                printer_access_code: access_code,
                admin_bootstrap: match a.admin_bootstrap {
                    Some(admin) => Some(AdminBootstrap { password, ..admin }),
                    None => None,
                },
                ..a
            };
            a.printer_text() + a.server_text() == b.printer_text() + b.server_text()
        }),
{
}

// ---------------------------------------------------------------------------------------------
// Laws
// ---------------------------------------------------------------------------------------------

/// A nozzle is called by its diameter in millimetres.
pub proof fn nozzles_are_called_by_their_diameter(nozzle: Nozzle)
    ensures
        nozzle.name().len() == 3,
        nozzle.name()[0] == '0',
        nozzle.name()[1] == '.',
        nozzle.diameter() == 100 * text::digit_value(nozzle.name()[2]),
{
    reveal_strlit("0.2");
    reveal_strlit("0.4");
    reveal_strlit("0.6");
    reveal_strlit("0.8");
}

/// A duration is a number above 0 with `s`, `m` or `h` right behind it, and an hour has 60
/// minutes of 60 seconds.
pub proof fn durations_are_numbers_with_a_unit(digits: Seq<char>, unit: char)
    requires
        text::all_digits(digits),
        digits.len() > 0,
        !text::is_digit(unit),
    ensures
        ({
            let n = text::digits_value(digits) as int;
            let seconds = if unit == 's' {
                n
            } else if unit == 'm' {
                60 * n
            } else {
                3600 * n
            };
            match duration_of(digits.push(unit)) {
                Some(r) => r == seconds && r > 0 && (unit == 's' || unit == 'm' || unit == 'h'),
                None => n == 0 || n > u64::MAX || seconds > u64::MAX || !(unit == 's' || unit == 'm'
                    || unit == 'h'),
            }
        }),
        duration_of(digits) is None,
{
    let raw = digits.push(unit);
    let n = digits.len() as int;
    lemma_digits_run(raw, 0, n);
    lemma_digits_run(digits, 0, n);
    assert(raw.take(n) =~= digits);
    assert(raw.skip(n) =~= seq![unit]);
    reveal_strlit("s");
    reveal_strlit("m");
    reveal_strlit("h");
    assert("s"@ =~= seq!['s'] && "m"@ =~= seq!['m'] && "h"@ =~= seq!['h']);
    assert(seq![unit][0] == unit && seq!['s'][0] == 's' && seq!['m'][0] == 'm' && seq!['h'][0]
        == 'h');
}

proof fn lemma_digits_run(s: Seq<char>, i: int, end: int)
    requires
        0 <= i <= end <= s.len(),
        forall|k: int| i <= k < end ==> text::is_digit(#[trigger] s[k]),
        end < s.len() ==> !text::is_digit(s[end]),
    ensures
        decimal::digits_end(s, i) == end,
    decreases end - i,
{
    if i < end {
        assert(text::is_digit(s[i]));
        lemma_digits_run(s, i + 1, end);
    }
}

/// A variable that is unset or blank has its default; any other is read without the white space
/// around it, and not at all where it does not read.
pub proof fn blank_variables_have_their_defaults(env: Env, var: Seq<char>, port: u16, flag: bool)
    ensures
        env.value(var) is None ==> env.port(var, port) == Some(port) && env.flag(var, flag) == Some(
            flag,
        ),
        env.value(var) matches Some(raw) ==> text::trim(raw).len() > 0 && env.port(var, port)
            == port_of(text::trim(raw)) && env.flag(var, flag) == bool_of(text::trim(raw)),
        env.value("PRINTER_NOZZLE"@) is None ==> env.nozzle() == Some(Nozzle::Mm04),
        env.value("MAX_UPLOAD_MB"@) is None ==> env.max_upload() == Some(209_715_200u64),
        env.value("SLICE_TIMEOUT"@) is None ==> env.slice_timeout() == Some(900u64),
        env.value("ESTIMATE_MARGIN"@) is None ==> env.estimate_margin() == Some(1_150_000u64),
{
}

/// Ports are numbers from 1 to 65535, and a limit is a number of mebibytes above 0.
pub proof fn ports_and_limits_are_above_nothing(raw: Seq<char>)
    ensures
        port_of(raw) matches Some(port) ==> port > 0 && text::parsed_unsigned(raw, 65_535) == Some(
            port as nat,
        ),
        port_of(raw) is None <==> (text::parsed_unsigned(raw, 65_535) is None
            || text::parsed_unsigned(raw, 65_535) == Some(0nat)),
        megabytes_of(raw) matches Some(bytes) ==> bytes > 0 && bytes as int % 1_048_576 == 0
            && text::parsed_unsigned(raw, u64::MAX as nat) == Some((bytes as int / 1_048_576) as nat),
{
}

/// The host of the printer has to be given; the first admin is given with name and password or not
/// at all. Every other variable has to read where it is given.
pub proof fn a_configuration_needs_its_host(env: Env, resolved: Resolved)
    ensures
        env.problem(resolved) is None ==> {
            &&& env.value("PRINTER_HOST"@) is Some
            &&& env.value("ADMIN_USERNAME"@) is Some <==> env.value("ADMIN_PASSWORD"@) is Some
            &&& env.port("PRINTER_MQTT_PORT"@, 1883) is Some
            &&& env.port("PRINTER_UPLOAD_PORT"@, 80) is Some
            &&& env.port("PRINTER_CAMERA_PORT"@, 8080) is Some
            &&& env.flag("TRUST_PROXY"@, false) is Some
            &&& env.flag("CAMERA_ENABLED"@, true) is Some
            &&& env.nozzle() is Some && env.max_upload() is Some
            &&& env.slice_timeout() is Some && env.estimate_margin() is Some
            &&& env.value("TZ"@) is Some ==> resolved.zone is Some
            &&& env.value("LISTEN_ADDR"@) is Some ==> resolved.listen_addr_reads
        },
        env.value("PRINTER_HOST"@) is None ==> (env.problem(resolved) matches Some((var, _)) && var
            == "PRINTER_HOST"@),
        env.value("PRINTER_HOST"@) is Some && env.value("ADMIN_USERNAME"@) is Some && env.value(
            "ADMIN_PASSWORD"@,
        ) is None ==> (env.problem(resolved) matches Some((var, _)) && var == "ADMIN_PASSWORD"@),
        env.value("PRINTER_HOST"@) is Some && env.value("ADMIN_USERNAME"@) is None && env.value(
            "ADMIN_PASSWORD"@,
        ) is Some ==> (env.problem(resolved) matches Some((var, _)) && var == "ADMIN_USERNAME"@),
{
}

/// What is not given has its default.
pub proof fn what_is_not_given_has_its_default(config: Config, env: Env, resolved: Resolved)
    requires
        config.reads(env, resolved),
    ensures
        env.value("PRINTER_MQTT_PORT"@) is None ==> config.printer_mqtt_port == 1883,
        env.value("PRINTER_UPLOAD_PORT"@) is None ==> config.printer_upload_port == 80,
        env.value("PRINTER_CAMERA_PORT"@) is None ==> config.printer_camera_port == 8080,
        env.value("PRINTER_ACCESS_CODE"@) is None ==> config.printer_access_code@ == "123456"@,
        env.value("LISTEN_ADDR"@) is None ==> config.listen_addr@ == "0.0.0.0:8080"@,
        env.value("DATA_DIR"@) is None ==> config.data_dir@ == "/data"@,
        env.value("TRUST_PROXY"@) is None ==> !config.trust_proxy,
        env.value("CAMERA_ENABLED"@) is None ==> config.camera_enabled,
        env.value("MAX_UPLOAD_MB"@) is None ==> config.max_upload_bytes == 200 * 1024 * 1024,
        env.value("SLICE_TIMEOUT"@) is None ==> config.slice_timeout == 15 * 60,
        env.value("ESTIMATE_MARGIN"@) is None ==> config.estimate_margin == 1_150_000,
        env.value("PRINTER_NOZZLE"@) is None ==> config.nozzle == Nozzle::Mm04,
        env.value("PRINTER_SN"@) is None ==> config.printer_sn is None,
        env.value("ADMIN_USERNAME"@) is None ==> config.admin_bootstrap is None,
        env.value("TZ"@) is None ==> config.timezone == resolved.system_zone,
        env.value("TZ"@) is Some ==> config.timezone == resolved.zone->0,
{
}

} // verus!
