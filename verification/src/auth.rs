//! Password hashing, bearer tokens, cookies and the request checks around them.

use argon2::password_hash::{PasswordHasher, PasswordVerifier};
use vstd::prelude::*;

use crate::text;

verus! {

pub const SESSION_COOKIE: &'static str = "printhub_session";

/// How long a login lasts, in seconds.
pub const SESSION_TTL: u64 = 2_592_000;

/// How long a link that creates an account or resets a password lasts, in seconds.
pub const INVITE_TTL: u64 = 604_800;

// ---------------------------------------------------------------------------------------------
// Passwords
// ---------------------------------------------------------------------------------------------

/// Whether a password hashes to what a stored hash says, with the salt and the parameters that
/// stand in the stored hash.
pub uninterp spec fn hashes_to(password: Seq<char>, hash: Seq<char>) -> bool;

/// `argon2::Argon2::hash_password` with its default parameters and a random salt, as text. The
/// hash is one of Argon2id, and the password hashes to it. It fails, in the crate's words, where
/// randomness or memory cannot be had.
#[verifier::external_body]
fn argon2_hash(password: &str) -> (r: Result<String, String>)
    ensures
        r matches Ok(hash) ==> hashes_to(password@, hash@) && text::starts_with(
            hash@,
            "$argon2id$"@,
        ),
{
    argon2::Argon2::default()
        .hash_password(password.as_bytes())
        .map(|hash| hash.to_string())
        .map_err(|err| err.to_string())
}

/// `argon2::Argon2::verify_password` on a stored hash: whether the password hashes to what is
/// stored. It fails, in the crate's words, where that cannot be found out: the stored text is no
/// hash that the crate reads, or the memory that hashing needs cannot be had.
#[verifier::external_body]
fn argon2_verify(password: &str, hash: &str) -> (r: Result<bool, String>)
    ensures
        r matches Ok(matches) ==> matches == hashes_to(password@, hash@),
{
    match argon2::Argon2::default().verify_password(password.as_bytes(), hash) {
        Ok(()) => Ok(true),
        Err(argon2::password_hash::Error::PasswordInvalid) => Ok(false),
        Err(err) => Err(err.to_string()),
    }
}

/// A hash that the password, and as good as no other, is accepted for.
pub fn hash_password(password: &str) -> (r: Result<String, String>)
    ensures
        match r {
            Ok(hash) => hashes_to(password@, hash@) && text::starts_with(hash@, "$argon2id$"@),
            Err(said) => text::starts_with(said@, "hashing password: "@),
        },
{
    match argon2_hash(password) {
        Ok(hash) => Ok(hash),
        Err(err) => {
            let mut out = String::new();
            out.append("hashing password: ");
            out.append(err.as_str());
            assert(out@.take("hashing password: "@.len() as int) =~= "hashing password: "@);
            Err(out)
        },
    }
}

/// The hash that a password is compared with: that of the user, or the one that stands in where
/// there is no such user.
pub fn compared_with<'a>(hash: Option<&'a str>, stand_in: &'a str) -> (r: &'a str)
    ensures
        r@ == match hash {
            Some(hash) => hash@,
            None => stand_in@,
        },
{
    match hash {
        Some(hash) => hash,
        None => stand_in,
    }
}

/// What a comparison comes to: nobody is accepted for a user who does not exist, or where the
/// comparison could not be carried out.
pub fn accepted(known: bool, checked: &Result<bool, String>) -> (r: bool)
    ensures
        r == (known && *checked == Ok::<bool, String>(true)),
{
    known && match checked {
        Ok(matches) => *matches,
        Err(_) => false,
    }
}

/// `None` stands for "no such user": `stand_in` is verified anyway, so a login for an unknown
/// name takes as long as one with a wrong password. It fails where a user's hash could not be
/// compared with.
pub fn verify_password(password: &str, hash: Option<&str>, stand_in: &str) -> (r: Result<
    bool,
    String,
>)
    ensures
        match r {
            Ok(matches) => matches == (hash is Some && hashes_to(password@, hash->0@)),
            Err(_) => hash is Some,
        },
{
    let checked = argon2_verify(password, compared_with(hash, stand_in));
    if accepted(hash.is_some(), &checked) {
        return Ok(true);
    }
    match checked {
        Err(said) if hash.is_some() => Err(said),
        _ => Ok(false),
    }
}

/// What is hashed to stand in for the hash of an unknown user.
pub const STAND_IN: &'static str = "printhub-timing-equaliser";

// ---------------------------------------------------------------------------------------------
// Tokens
// ---------------------------------------------------------------------------------------------

/// The SHA-256 digest of some bytes.
pub uninterp spec fn sha256_of(data: Seq<u8>) -> Seq<u8>;

/// `sha2::Sha256::digest`: the digest of `data`, which has 32 bytes.
#[verifier::external_body]
fn sha256(data: &[u8]) -> (r: Vec<u8>)
    ensures
        r@ == sha256_of(data@),
        r@.len() == 32,
{
    <sha2::Sha256 as sha2::Digest>::digest(data).to_vec()
}

/// `getrandom::fill`: as many bytes of the system's randomness as are asked for, or the crate's
/// words where there is none to be had.
#[verifier::external_body]
fn random_bytes(n: usize) -> (r: Result<Vec<u8>, String>)
    ensures
        r matches Ok(bytes) ==> bytes@.len() == n,
{
    let mut bytes = vec![0u8; n];
    getrandom::fill(&mut bytes).map(|()| bytes).map_err(|err| err.to_string())
}

/// The hash that is stored in a token's place.
pub open spec fn stored_for(token: Seq<char>) -> Seq<u8> {
    sha256_of(vstd::utf8::encode_utf8(token))
}

pub fn token_hash(token: &str) -> (r: Vec<u8>)
    ensures
        r@ == stored_for(token@),
        r@.len() == 32,
{
    sha256(token.as_bytes())
}

/// The token that some bytes make, and what is stored in its place.
pub fn token_from(bytes: &[u8]) -> (r: (String, Vec<u8>))
    ensures
        r.0@ == text::hex(bytes@),
        r.1@ == stored_for(r.0@),
{
    let token = text::hex_string(bytes);
    let hash = token_hash(token.as_str());
    (token, hash)
}

/// A random bearer token and the SHA-256 digest that is stored in its place.
pub fn new_token() -> (r: Result<(String, Vec<u8>), String>)
    ensures
        match r {
            Ok((token, hash)) => token@.len() == 64 && hash@ == stored_for(token@),
            Err(said) => text::starts_with(said@, "system randomness: "@),
        },
{
    match random_bytes(32) {
        Ok(bytes) => Ok(token_from(bytes.as_slice())),
        Err(err) => {
            let mut out = String::new();
            out.append("system randomness: ");
            out.append(err.as_str());
            assert(out@.take("system randomness: "@.len() as int) =~= "system randomness: "@);
            Err(out)
        },
    }
}

// ---------------------------------------------------------------------------------------------
// Cookies
// ---------------------------------------------------------------------------------------------

/// A header of a request. Names are in lower case; a value that is not readable as text is
/// `None`.
#[derive(Debug, PartialEq, Eq)]
pub struct Header {
    pub name: String,
    pub value: Option<String>,
}

/// The headers of a request, in their order.
#[derive(Debug, PartialEq, Eq)]
pub struct Headers {
    pub list: Vec<Header>,
}

/// The value of a cookie in a part of a header, if it is that one.
pub open spec fn cookie_in(pair: Seq<char>, name: Seq<char>) -> Option<Seq<char>> {
    match text::split_once(text::trim(pair), '=') {
        Some((key, value)) => if key == name {
            Some(value)
        } else {
            None
        },
        None => None,
    }
}

/// The value of the first such cookie in a header.
pub open spec fn cookie_of(value: Seq<char>, name: Seq<char>) -> Option<Seq<char>>
    decreases value.len(),
    via cookie_of_decreases
{
    match text::split_once(value, ';') {
        Some((pair, rest)) => match cookie_in(pair, name) {
            Some(found) => Some(found),
            None => cookie_of(rest, name),
        },
        None => cookie_in(value, name),
    }
}

#[via_fn]
proof fn cookie_of_decreases(value: Seq<char>, name: Seq<char>) {
    text::lemma_find(value, ';', 0);
}

/// The value of the first such cookie in the first `n` headers.
pub open spec fn cookie_among(list: Seq<Header>, name: Seq<char>, n: int) -> Option<Seq<char>>
    decreases n,
{
    if n <= 0 {
        None
    } else {
        match cookie_among(list, name, n - 1) {
            Some(found) => Some(found),
            None => if list[n - 1].name@ == "cookie"@ {
                match list[n - 1].value {
                    Some(value) => cookie_of(value@, name),
                    None => None,
                }
            } else {
                None
            },
        }
    }
}

fn find_cookie_in(pair: &[char], name: &[char]) -> (r: Option<String>)
    ensures
        text::opt_view(r) == cookie_in(pair@, name@),
{
    match text::split_at_char(text::trimmed(pair), '=') {
        Some((key, value)) => {
            if text::slices_equal(key, name) {
                Some(text::string(value))
            } else {
                None
            }
        },
        None => None,
    }
}

fn find_cookie(value: &[char], name: &[char]) -> (r: Option<String>)
    ensures
        text::opt_view(r) == cookie_of(value@, name@),
    decreases value@.len(),
{
    proof {
        text::lemma_find(value@, ';', 0);
    }
    match text::split_at_char(value, ';') {
        Some((pair, rest)) => match find_cookie_in(pair, name) {
            Some(found) => Some(found),
            None => find_cookie(rest, name),
        },
        None => find_cookie_in(value, name),
    }
}

pub fn cookie_value(headers: &Headers, name: &str) -> (r: Option<String>)
    ensures
        text::opt_view(r) == cookie_among(headers.list@, name@, headers.list@.len() as int),
{
    let wanted = text::chars(name);
    let list = &headers.list;
    let mut i: usize = 0;
    let mut found: Option<String> = None;
    while i < list.len()
        invariant
            i <= list@.len(),
            wanted@ == name@,
            text::opt_view(found) == cookie_among(list@, name@, i as int),
        decreases list.len() - i,
    {
        if found.is_none() && text::same(list[i].name.as_str(), "cookie") {
            if let Some(value) = &list[i].value {
                let chars = text::chars(value.as_str());
                found = find_cookie(chars.as_slice(), wanted.as_slice());
            }
        }
        i += 1;
    }
    found
}

pub open spec fn session_cookie_text(token: Seq<char>, max_age: nat, secure: bool) -> Seq<char> {
    "printhub_session="@ + token + "; Path=/; HttpOnly; SameSite=Lax; Max-Age="@ + text::decimal(
        max_age,
    ) + if secure {
        "; Secure"@
    } else {
        ""@
    }
}

fn cookie_text(token: &str, max_age: u64, secure: bool) -> (r: String)
    ensures
        r@ == session_cookie_text(token@, max_age as nat, secure),
{
    let mut out = String::new();
    out.append("printhub_session=");
    out.append(token);
    out.append("; Path=/; HttpOnly; SameSite=Lax; Max-Age=");
    text::push_decimal(&mut out, max_age);
    if secure {
        out.append("; Secure");
    }
    proof {
        reveal_strlit("");
        assert(out@ =~= session_cookie_text(token@, max_age as nat, secure));
    }
    out
}

pub fn session_cookie(token: &str, secure: bool) -> (r: String)
    ensures
        r@ == session_cookie_text(token@, SESSION_TTL as nat, secure),
{
    cookie_text(token, SESSION_TTL, secure)
}

pub fn clear_session_cookie(secure: bool) -> (r: String)
    ensures
        r@ == session_cookie_text(""@, 0, secure),
{
    cookie_text("", 0, secure)
}

// ---------------------------------------------------------------------------------------------
// Where a request comes from
// ---------------------------------------------------------------------------------------------

/// The first header from position `i` on with the given name, or the number of headers.
pub open spec fn header_at(list: Seq<Header>, name: Seq<char>, i: int) -> int
    decreases list.len() - i,
{
    if i >= list.len() {
        list.len() as int
    } else if list[i].name@ == name {
        i
    } else {
        header_at(list, name, i + 1)
    }
}

pub open spec fn has_header(list: Seq<Header>, name: Seq<char>) -> bool {
    header_at(list, name, 0) < list.len()
}

/// What the first header of a name says, if it is there and readable.
pub open spec fn header_text(list: Seq<Header>, name: Seq<char>) -> Option<Seq<char>> {
    let i = header_at(list, name, 0);
    if i < list.len() {
        text::opt_view(list[i].value)
    } else {
        None
    }
}

fn find_header(list: &Vec<Header>, name: &str) -> (r: usize)
    ensures
        r == header_at(list@, name@, 0),
        r <= list@.len(),
{
    let mut i: usize = 0;
    while i < list.len()
        invariant
            i <= list@.len(),
            header_at(list@, name@, 0) == header_at(list@, name@, i as int),
        decreases list.len() - i,
    {
        if text::same(list[i].name.as_str(), name) {
            return i;
        }
        i += 1;
    }
    i
}

pub fn contains_header(headers: &Headers, name: &str) -> (r: bool)
    ensures
        r == has_header(headers.list@, name@),
{
    find_header(&headers.list, name) < headers.list.len()
}

fn copy_text(value: &Option<String>) -> (r: Option<String>)
    ensures
        r == *value,
{
    match value {
        Some(value) => Some(value.clone()),
        None => None,
    }
}

fn read_header(list: &Vec<Header>, name: &str) -> (r: Option<String>)
    ensures
        text::opt_view(r) == header_text(list@, name@),
{
    let i = find_header(list, name);
    if i < list.len() {
        copy_text(&list[i].value)
    } else {
        None
    }
}

/// Proxies append to these headers, so only the first entry is the client-facing one.
pub open spec fn first_entry(list: Seq<Header>, name: Seq<char>) -> Option<Seq<char>> {
    match header_text(list, name) {
        Some(value) => Some(text::trim(value.take(text::find(value, ',', 0)))),
        None => None,
    }
}

fn first_value(list: &Vec<Header>, name: &str) -> (r: Option<String>)
    ensures
        text::opt_view(r) == first_entry(list@, name@),
{
    match read_header(list, name) {
        Some(value) => {
            let chars = text::chars(value.as_str());
            let end = text::find_char(chars.as_slice(), ',', 0);
            let first = vstd::slice::slice_subrange(chars.as_slice(), 0, end);
            assert(first@ =~= value@.take(end as int));
            Some(text::string(text::trimmed(first)))
        },
        None => None,
    }
}

pub open spec fn addressed_host(list: Seq<Header>, trust_proxy: bool) -> Option<Seq<char>> {
    match first_entry(list, "x-forwarded-host"@) {
        Some(host) if trust_proxy => Some(host),
        _ => header_text(list, "host"@),
    }
}

/// The host the browser addressed: `X-Forwarded-Host` behind a trusted proxy, `Host` otherwise.
pub fn request_host(headers: &Headers, trust_proxy: bool) -> (r: Option<String>)
    ensures
        text::opt_view(r) == addressed_host(headers.list@, trust_proxy),
{
    if trust_proxy {
        match first_value(&headers.list, "x-forwarded-host") {
            Some(host) => {
                return Some(host);
            },
            None => {},
        }
    }
    read_header(&headers.list, "host")
}

pub open spec fn came_by_https(list: Seq<Header>, trust_proxy: bool) -> bool {
    trust_proxy && (first_entry(list, "x-forwarded-proto"@) matches Some(proto) && text::lower(proto)
        == text::lower("https"@))
}

pub fn is_https(headers: &Headers, trust_proxy: bool) -> (r: bool)
    ensures
        r == came_by_https(headers.list@, trust_proxy),
{
    if !trust_proxy {
        return false;
    }
    match first_value(&headers.list, "x-forwarded-proto") {
        Some(proto) => {
            let proto = text::chars(proto.as_str());
            let https = text::chars("https");
            text::same_ignoring_case(proto.as_slice(), https.as_slice())
        },
        None => false,
    }
}

/// The first position that ends the authority of an address.
pub open spec fn authority_end(s: Seq<char>, i: int) -> int
    decreases s.len() - i,
{
    if 0 <= i < s.len() && s[i] != '/' && s[i] != '?' && s[i] != '#' {
        authority_end(s, i + 1)
    } else {
        i
    }
}

/// Host and port of an address.
pub open spec fn authority_of(url: Seq<char>) -> Option<Seq<char>> {
    let i = text::find_part(url, "://"@, 0);
    if i == -1 {
        None
    } else {
        let rest = url.skip(i + 3);
        Some(rest.take(authority_end(rest, 0)))
    }
}

pub fn authority(url: &str) -> (r: Option<String>)
    ensures
        text::opt_view(r) == authority_of(url@),
{
    proof {
        reveal_strlit("://");
    }
    let chars = text::chars(url);
    let mark = text::chars("://");
    let total: usize = chars.len();
    let i = match text::find_slice(chars.as_slice(), mark.as_slice(), 0) {
        Some(i) => i,
        None => {
            return None;
        },
    };
    let rest = vstd::slice::slice_subrange(chars.as_slice(), i + 3, total);
    assert(rest@ =~= url@.skip(i + 3));
    let mut end: usize = 0;
    while end < rest.len() && rest[end] != '/' && rest[end] != '?' && rest[end] != '#'
        invariant
            end <= rest@.len(),
            authority_end(rest@, 0) == authority_end(rest@, end as int),
        decreases rest.len() - end,
    {
        end += 1;
    }
    let host = vstd::slice::slice_subrange(rest, 0, end);
    assert(host@ =~= rest@.take(end as int));
    Some(text::string(host))
}

/// Where a request says it comes from: `Origin`, or `Referer` where there is none.
pub open spec fn claimed_origin(list: Seq<Header>) -> Option<Seq<char>> {
    if has_header(list, "origin"@) {
        header_text(list, "origin"@)
    } else {
        header_text(list, "referer"@)
    }
}

pub open spec fn is_same_origin(list: Seq<Header>, trust_proxy: bool) -> bool {
    match (addressed_host(list, trust_proxy), claimed_origin(list)) {
        (Some(host), Some(origin)) => authority_of(origin) matches Some(authority) && text::lower(
            authority,
        ) == text::lower(host),
        _ => false,
    }
}

/// Methods that change nothing.
pub open spec fn is_reading(method: Seq<char>) -> bool {
    method == "GET"@ || method == "HEAD"@ || method == "OPTIONS"@
}

/// Whether a request may pass: one that only reads may come from anywhere, every other has to
/// come from a page on this same host.
pub fn may_pass(method: &str, headers: &Headers, trust_proxy: bool) -> (r: bool)
    ensures
        r == (is_reading(method@) || is_same_origin(headers.list@, trust_proxy)),
{
    text::same(method, "GET") || text::same(method, "HEAD") || text::same(method, "OPTIONS")
        || same_origin(headers, trust_proxy)
}

/// Whether a state-changing request came from a page on this same host. `SameSite=Lax`
/// already withholds the session cookie from cross-site form posts; this also rejects other
/// origins on the same site, such as another service on the same LAN hostname.
pub fn same_origin(headers: &Headers, trust_proxy: bool) -> (r: bool)
    ensures
        r == is_same_origin(headers.list@, trust_proxy),
{
    let host = match request_host(headers, trust_proxy) {
        Some(host) => host,
        None => {
            return false;
        },
    };
    let list = &headers.list;
    let origin = if find_header(list, "origin") < list.len() {
        read_header(list, "origin")
    } else {
        read_header(list, "referer")
    };
    match origin {
        Some(origin) => match authority(origin.as_str()) {
            Some(found) => {
                let found = text::chars(found.as_str());
                let host = text::chars(host.as_str());
                text::same_ignoring_case(found.as_slice(), host.as_slice())
            },
            None => false,
        },
        None => false,
    }
}

/// Forwarded headers count for nothing unless the proxy is trusted.
pub proof fn forwarded_hosts_need_trust(list: Seq<Header>)
    ensures
        addressed_host(list, false) == header_text(list, "host"@),
        !came_by_https(list, false),
{
}

/// A request that does not say where it comes from is refused.
pub proof fn origins_must_be_claimed(list: Seq<Header>, trust_proxy: bool)
    requires
        !has_header(list, "origin"@),
        !has_header(list, "referer"@),
    ensures
        !is_same_origin(list, trust_proxy),
{
}

// ---------------------------------------------------------------------------------------------
// Failed logins
// ---------------------------------------------------------------------------------------------

pub const FREE_ATTEMPTS: u32 = 5;

/// The longest wait, in seconds.
pub const MAX_LOCKOUT: u64 = 900;

pub const MAX_TRACKED: usize = 1024;

/// Failed logins for one name. Times are in milliseconds of one clock.
#[derive(Debug, PartialEq, Eq)]
pub struct Failures {
    pub name: String,
    pub count: u32,
    pub last: u64,
}

/// Failed logins per username. Past `FREE_ATTEMPTS`, each attempt must wait twice as long as
/// the previous one, up to `MAX_LOCKOUT`.
#[derive(Debug, PartialEq, Eq)]
pub struct LoginLimiter {
    pub failures: Vec<Failures>,
}

pub open spec fn doubled(n: nat) -> nat
    decreases n,
{
    if n == 0 {
        1
    } else {
        2 * doubled((n - 1) as nat)
    }
}

/// How long to wait after so many failures, in seconds.
pub open spec fn wait_after(failures: u32) -> Option<nat> {
    if failures < FREE_ATTEMPTS {
        None
    } else {
        let wait = doubled((failures - FREE_ATTEMPTS) as nat);
        Some(
            if wait < MAX_LOCKOUT {
                wait
            } else {
                MAX_LOCKOUT as nat
            },
        )
    }
}

proof fn lemma_doubled(a: nat, b: nat)
    requires
        a <= b,
    ensures
        1 <= doubled(a) <= doubled(b),
    decreases b,
{
    if a < b {
        lemma_doubled(a, (b - 1) as nat);
    } else if b > 0 {
        lemma_doubled((a - 1) as nat, (b - 1) as nat);
    }
}

pub fn lockout(failures: u32) -> (r: Option<u64>)
    ensures
        match r {
            Some(wait) => wait_after(failures) == Some(wait as nat) && wait <= MAX_LOCKOUT,
            None => wait_after(failures) is None,
        },
{
    if failures < FREE_ATTEMPTS {
        return None;
    }
    let over: u32 = failures - FREE_ATTEMPTS;
    let mut wait: u64 = 1;
    let mut i: u32 = 0;
    while i < over && wait < MAX_LOCKOUT
        invariant
            i <= over,
            wait == doubled(i as nat),
            1 <= wait < 2 * MAX_LOCKOUT,
        decreases over - i,
    {
        wait = 2 * wait;
        i += 1;
    }
    proof {
        lemma_doubled(i as nat, over as nat);
    }
    if wait < MAX_LOCKOUT {
        Some(wait)
    } else {
        Some(MAX_LOCKOUT)
    }
}

/// Each failure more makes the wait twice as long, up to the longest; it never gets shorter.
pub proof fn waits_double_and_are_capped(failures: u32)
    requires
        FREE_ATTEMPTS <= failures < u32::MAX,
    ensures
        wait_after(failures)->0 <= wait_after((failures + 1) as u32)->0 <= MAX_LOCKOUT,
        wait_after((failures + 1) as u32)->0 == 2 * wait_after(failures)->0 || wait_after(
            (failures + 1) as u32,
        )->0 == MAX_LOCKOUT,
{
    lemma_doubled((failures - FREE_ATTEMPTS) as nat, (failures + 1 - FREE_ATTEMPTS) as nat);
}

/// The first entry from position `i` on of the given name, or the number of entries.
pub open spec fn failures_at(list: Seq<Failures>, name: Seq<char>, i: int) -> int
    decreases list.len() - i,
{
    if i >= list.len() {
        list.len() as int
    } else if list[i].name@ == name {
        i
    } else {
        failures_at(list, name, i + 1)
    }
}

proof fn lemma_failures_at(list: Seq<Failures>, name: Seq<char>, i: int)
    requires
        0 <= i <= list.len(),
    ensures
        i <= failures_at(list, name, i) <= list.len(),
        failures_at(list, name, i) < list.len() ==> list[failures_at(list, name, i)].name@ == name,
        forall|k: int| i <= k < failures_at(list, name, i) ==> (#[trigger] list[k]).name@ != name,
    decreases list.len() - i,
{
    if i < list.len() && list[i].name@ != name {
        lemma_failures_at(list, name, i + 1);
    }
}

proof fn lemma_failures_at_is(list: Seq<Failures>, name: Seq<char>, i: int, at: int)
    requires
        0 <= i <= at <= list.len(),
        at < list.len() ==> list[at].name@ == name,
        forall|k: int| i <= k < at ==> (#[trigger] list[k]).name@ != name,
    ensures
        failures_at(list, name, i) == at,
    decreases at - i,
{
    if i < at {
        lemma_failures_at_is(list, name, i + 1, at);
    }
}

fn find_failures(list: &Vec<Failures>, name: &str) -> (r: usize)
    ensures
        r == failures_at(list@, name@, 0),
        r <= list@.len(),
        r < list@.len() ==> list@[r as int].name@ == name@,
{
    let mut i: usize = 0;
    while i < list.len()
        invariant
            i <= list@.len(),
            failures_at(list@, name@, 0) == failures_at(list@, name@, i as int),
        decreases list.len() - i,
    {
        if text::same(list[i].name.as_str(), name) {
            return i;
        }
        i += 1;
    }
    i
}

/// What is known of a name: how often it failed, and when last.
pub open spec fn failed(list: Seq<Failures>, name: Seq<char>) -> Option<(u32, u64)> {
    let i = failures_at(list, name, 0);
    if i < list.len() {
        Some((list[i].count, list[i].last))
    } else {
        None
    }
}

pub open spec fn elapsed(last: u64, now: u64) -> int {
    if now > last {
        now - last
    } else {
        0
    }
}

/// Failures that still count when room is made.
pub open spec fn is_recent(now: u64) -> spec_fn(Failures) -> bool {
    |entry: Failures| elapsed(entry.last, now) < 1000 * MAX_LOCKOUT
}

pub open spec fn kept(list: Seq<Failures>, now: u64) -> Seq<Failures> {
    if list.len() >= MAX_TRACKED {
        list.filter(is_recent(now))
    } else {
        list
    }
}

/// Every name stands in the list once.
pub open spec fn names_differ(list: Seq<Failures>) -> bool {
    forall|i: int, j: int|
        0 <= i < j < list.len() ==> (#[trigger] list[i]).name@ != (#[trigger] list[j]).name@
}

/// One failure more is counted for a name, and nothing else changes but that old failures may be
/// forgotten.
pub open spec fn failure_recorded(
    before: Seq<Failures>,
    after: Seq<Failures>,
    username: Seq<char>,
    now: u64,
) -> bool {
    let name = text::lowercase(username);
    let kept = kept(before, now);
    forall|other: Seq<char>| #[trigger]
        failed(after, other) == if other == name {
            Some(
                (
                    match failed(kept, name) {
                        Some((count, _)) => if count < u32::MAX {
                            (count + 1) as u32
                        } else {
                            count
                        },
                        None => 1u32,
                    },
                    now,
                ),
            )
        } else {
            failed(kept, other)
        }
}

/// The failures of a name are forgotten, and nothing else changes.
pub open spec fn success_recorded(
    before: Seq<Failures>,
    after: Seq<Failures>,
    username: Seq<char>,
) -> bool {
    forall|other: Seq<char>| #[trigger]
        failed(after, other) == if other == text::lowercase(username) {
            None
        } else {
            failed(before, other)
        }
}

impl Default for LoginLimiter {
    fn default() -> (r: LoginLimiter)
        ensures
            r.failures@.len() == 0,
    {
        LoginLimiter { failures: Vec::new() }
    }
}

impl LoginLimiter {
    /// How long, in milliseconds, a name has to wait before it may try again.
    pub open spec fn must_wait(self, username: Seq<char>, now: u64) -> Option<int> {
        match failed(self.failures@, text::lowercase(username)) {
            Some((count, last)) => match wait_after(count) {
                Some(wait) => if elapsed(last, now) < 1000 * wait {
                    Some(1000 * wait - elapsed(last, now))
                } else {
                    None
                },
                None => None,
            },
            None => None,
        }
    }

    pub fn retry_after(&self, username: &str, now: u64) -> (r: Option<u64>)
        ensures
            match r {
                Some(wait) => self.must_wait(username@, now) == Some(wait as int),
                None => self.must_wait(username@, now) is None,
            },
    {
        let name = text::to_lowercase(username);
        let i = find_failures(&self.failures, name.as_str());
        if i >= self.failures.len() {
            return None;
        }
        let wait: u64 = match lockout(self.failures[i].count) {
            Some(wait) => 1000 * wait,
            None => {
                return None;
            },
        };
        let last: u64 = self.failures[i].last;
        let elapsed: u64 = if now > last {
            now - last
        } else {
            0
        };
        if elapsed < wait {
            Some(wait - elapsed)
        } else {
            None
        }
    }

    pub fn record_failure(&mut self, username: &str, now: u64)
        requires
            names_differ(old(self).failures@),
        ensures
            names_differ(final(self).failures@),
            failure_recorded(old(self).failures@, final(self).failures@, username@, now),
    {
        let name = text::to_lowercase(username);
        let ghost all = self.failures@;
        if self.failures.len() >= MAX_TRACKED {
            let recent = keep_recent(&self.failures, now);
            self.failures = recent;
            proof {
                lemma_views_differ(all, self.failures@, is_recent(now));
            }
        }
        let ghost before = self.failures@;
        assert(names_differ(before));
        proof {
            lemma_kept_lookup(all, before, now);
            lemma_failures_at(before, name@, 0);
        }
        let i = find_failures(&self.failures, name.as_str());
        if i < self.failures.len() {
            if self.failures[i].count < u32::MAX {
                self.failures[i].count = self.failures[i].count + 1;
            }
            self.failures[i].last = now;
            let ghost after = self.failures@;
            assert forall|k: int| 0 <= k < after.len() implies (#[trigger] after[k]).name@
                == before[k].name@ && (k != i ==> after[k] == before[k]) by {}
            assert forall|other: Seq<char>| #[trigger]
                failed(after, other) == if other == name@ {
                    Some((after[i as int].count, now))
                } else {
                    failed(before, other)
                } by {
                lemma_failures_at(before, other, 0);
                lemma_failures_at_is(after, other, 0, failures_at(before, other, 0));
            }
        } else {
            let ghost wanted = name@;
            self.failures.push(Failures { name, count: 1, last: now });
            let ghost after = self.failures@;
            assert forall|k: int| 0 <= k < before.len() implies #[trigger] after[k] == before[k] by {}
            assert forall|other: Seq<char>| #[trigger]
                failed(after, other) == if other == wanted {
                    Some((1u32, now))
                } else {
                    failed(before, other)
                } by {
                lemma_failures_at(before, other, 0);
                let at = failures_at(before, other, 0);
                if other == wanted {
                    lemma_failures_at_is(after, other, 0, before.len() as int);
                } else if at < before.len() {
                    lemma_failures_at_is(after, other, 0, at);
                } else {
                    lemma_failures_at_is(after, other, 0, after.len() as int);
                }
            }
        }
    }

    pub fn record_success(&mut self, username: &str)
        requires
            names_differ(old(self).failures@),
        ensures
            names_differ(final(self).failures@),
            success_recorded(old(self).failures@, final(self).failures@, username@),
    {
        let name = text::to_lowercase(username);
        let ghost before = self.failures@;
        let i = find_failures(&self.failures, name.as_str());
        proof {
            lemma_failures_at(before, name@, 0);
        }
        if i < self.failures.len() {
            let _removed = self.failures.remove(i);
            let ghost after = self.failures@;
            assert forall|k: int| 0 <= k < after.len() implies #[trigger] after[k] == before[
                if k < i {
                    k
                } else {
                    k + 1
                }
            ] by {}
            assert forall|other: Seq<char>| #[trigger]
                failed(after, other) == if other == name@ {
                    None
                } else {
                    failed(before, other)
                } by {
                lemma_failures_at(before, other, 0);
                let at = failures_at(before, other, 0);
                if other == name@ {
                    lemma_failures_at_is(after, other, 0, after.len() as int);
                } else if at < before.len() {
                    lemma_failures_at_is(
                        after,
                        other,
                        0,
                        if at < i {
                            at
                        } else {
                            at - 1
                        },
                    );
                } else {
                    lemma_failures_at_is(after, other, 0, after.len() as int);
                }
            }
        }
    }
}

/// The same entries, as far as they can be told apart.
pub open spec fn same_entries(a: Seq<Failures>, b: Seq<Failures>) -> bool {
    &&& a.len() == b.len()
    &&& forall|i: int|
        0 <= i < a.len() ==> (#[trigger] a[i]).name@ == b[i].name@ && a[i].count == b[i].count
            && a[i].last == b[i].last
}

fn keep_recent(list: &Vec<Failures>, now: u64) -> (r: Vec<Failures>)
    ensures
        same_entries(r@, list@.filter(is_recent(now))),
{
    let ghost p = is_recent(now);
    let mut out: Vec<Failures> = Vec::new();
    proof {
        crate::lists::lemma_filter_ends(list@, p);
    }
    let mut i: usize = 0;
    while i < list.len()
        invariant
            i <= list@.len(),
            p == is_recent(now),
            same_entries(out@, list@.take(i as int).filter(p)),
        decreases list.len() - i,
    {
        proof {
            crate::lists::lemma_filter_step(list@, p, i as int);
        }
        let last: u64 = list[i].last;
        if now <= last || now - last < 1000 * MAX_LOCKOUT {
            out.push(Failures { name: list[i].name.clone(), count: list[i].count, last });
        }
        i += 1;
    }
    out
}

proof fn lemma_views_differ(all: Seq<Failures>, some: Seq<Failures>, p: spec_fn(Failures) -> bool)
    requires
        names_differ(all),
        same_entries(some, all.filter(p)),
    ensures
        names_differ(some),
{
    crate::lists::lemma_filter_positions(all, p);
    let left = all.filter(p);
    assert forall|i: int, j: int| 0 <= i < j < some.len() implies (#[trigger] some[i]).name@ != (
    #[trigger] some[j]).name@ by {
        assert(some[i].name@ == left[i].name@);
        assert(some[j].name@ == left[j].name@);
        let (a, b) = choose|a: int, b: int|
            0 <= a < b < all.len() && all[a] == left[i] && all[b] == left[j];
        assert(all[a].name@ != all[b].name@);
    }
}

proof fn lemma_kept_lookup(all: Seq<Failures>, some: Seq<Failures>, now: u64)
    requires
        if all.len() >= MAX_TRACKED {
            same_entries(some, all.filter(is_recent(now)))
        } else {
            some == all
        },
    ensures
        forall|name: Seq<char>| #[trigger] failed(some, name) == failed(kept(all, now), name),
{
    let other = kept(all, now);
    assert forall|name: Seq<char>| #[trigger] failed(some, name) == failed(other, name) by {
        lemma_failures_at(other, name, 0);
        let at = failures_at(other, name, 0);
        if at < other.len() {
            assert(some[at].name@ == other[at].name@);
        }
        assert forall|k: int| 0 <= k < at implies (#[trigger] some[k]).name@ != name by {
            assert(some[k].name@ == other[k].name@);
        }
        lemma_failures_at_is(some, name, 0, at);
    }
}

/// A login that succeeds clears the name: it need not wait. Other names wait as before.
pub proof fn a_success_clears_the_name(
    before: LoginLimiter,
    after: LoginLimiter,
    username: Seq<char>,
    other: Seq<char>,
    now: u64,
)
    requires
        success_recorded(before.failures@, after.failures@, username),
        text::lowercase(other) != text::lowercase(username),
    ensures
        after.must_wait(username, now) is None,
        after.must_wait(other, now) == before.must_wait(other, now),
{
    assert(failed(after.failures@, text::lowercase(username)) is None);
    assert(failed(after.failures@, text::lowercase(other)) == failed(
        before.failures@,
        text::lowercase(other),
    ));
}

/// Nobody waits for the first failures.
pub proof fn the_first_attempts_are_free(limiter: LoginLimiter, username: Seq<char>, now: u64)
    requires
        failed(limiter.failures@, text::lowercase(username)) matches Some((count, _)) && count
            < FREE_ATTEMPTS,
    ensures
        limiter.must_wait(username, now) is None,
{
}

// ---------------------------------------------------------------------------------------------
// Laws
// ---------------------------------------------------------------------------------------------

/// Four failures cost nothing; the fifth costs a second, each one more twice as long as the one
/// before, and none more than a quarter of an hour.
pub proof fn the_fifth_failure_costs_a_second(failures: u32)
    ensures
        wait_after(failures) is None <==> failures < 5,
        wait_after(5) == Some(1nat),
        wait_after(failures) matches Some(wait) ==> 1 <= wait <= 900,
        5 <= failures < u32::MAX && wait_after(failures)->0 <= 450 ==> wait_after(
            (failures + 1) as u32,
        ) == Some(2 * wait_after(failures)->0),
        5 <= failures < u32::MAX && wait_after(failures)->0 > 450 ==> wait_after(
            (failures + 1) as u32,
        ) == Some(900nat),
{
    if failures >= 5 {
        lemma_doubled_is_positive((failures - 5) as nat);
        if failures < u32::MAX {
            assert(doubled((failures + 1 - 5) as nat) == 2 * doubled((failures - 5) as nat));
        }
    }
}

proof fn lemma_doubled_is_positive(n: nat)
    ensures
        doubled(n) >= 1,
    decreases n,
{
    if n > 0 {
        lemma_doubled_is_positive((n - 1) as nat);
    }
}

/// A name waits from its last failure on: what is left of its wait, and nothing once it is over.
pub proof fn a_wait_runs_from_the_last_failure(
    limiter: LoginLimiter,
    username: Seq<char>,
    count: u32,
    last: u64,
    now: u64,
)
    requires
        failed(limiter.failures@, text::lowercase(username)) == Some((count, last)),
        last <= now,
    ensures
        limiter.must_wait(username, now) == match wait_after(count) {
            Some(wait) => if now < last + 1000 * wait {
                Some(last + 1000 * wait - now)
            } else {
                None
            },
            None => None,
        },
{
}

/// A name that has not failed need not wait.
pub proof fn an_unknown_name_need_not_wait(limiter: LoginLimiter, username: Seq<char>, now: u64)
    requires
        failed(limiter.failures@, text::lowercase(username)) is None,
    ensures
        limiter.must_wait(username, now) is None,
{
}

/// A failure counts one more for its name, whatever the case of its letters, from now on, and
/// nothing for any other.
pub proof fn a_failure_counts_for_its_name(
    before: Seq<Failures>,
    after: Seq<Failures>,
    username: Seq<char>,
    other: Seq<char>,
    now: u64,
)
    requires
        failure_recorded(before, after, username, now),
        before.len() < 1024,
        other != text::lowercase(username),
    ensures
        failed(after, text::lowercase(username)) matches Some((count, last)) && last == now && (
        match failed(before, text::lowercase(username)) {
            Some((earlier, _)) => earlier < u32::MAX ==> count == earlier + 1,
            None => count == 1,
        }),
        failed(after, other) == failed(before, other),
{
    assert(failed(after, text::lowercase(username)) is Some);
}

/// A request comes from the site's own pages exactly where the host it names as its origin, by
/// `Origin` or without that by `Referer`, is the host it is sent to, whatever the case of the
/// letters. Requests that change nothing need not.
pub proof fn requests_come_from_where_they_go(list: Seq<Header>, trust_proxy: bool)
    ensures
        ({
            let claimed = if has_header(list, "origin"@) {
                header_text(list, "origin"@)
            } else {
                header_text(list, "referer"@)
            };
            let sent_to = if trust_proxy && first_entry(list, "x-forwarded-host"@) is Some {
                first_entry(list, "x-forwarded-host"@)
            } else {
                header_text(list, "host"@)
            };
            is_same_origin(list, trust_proxy) <==> claimed is Some && sent_to is Some
                && authority_of(claimed->0) is Some && text::lower(authority_of(claimed->0)->0)
                == text::lower(sent_to->0)
        }),
        is_reading("GET"@) && is_reading("HEAD"@) && is_reading("OPTIONS"@),
        !is_reading("POST"@) && !is_reading("PUT"@) && !is_reading("DELETE"@) && !is_reading(
            "PATCH"@,
        ),
{
    reveal_strlit("GET");
    reveal_strlit("HEAD");
    reveal_strlit("OPTIONS");
    reveal_strlit("POST");
    reveal_strlit("PUT");
    reveal_strlit("DELETE");
    reveal_strlit("PATCH");
    assert("PUT"@[0] == 'P' && "GET"@[0] == 'G' && "HEAD"@[0] == 'H' && "POST"@[0] == 'P');
    assert("OPTIONS"@.len() == 7 && "DELETE"@.len() == 6 && "PATCH"@.len() == 5);
    assert("GET"@.len() == 3 && "HEAD"@.len() == 4 && "POST"@.len() == 4 && "PUT"@.len() == 3);
}

/// The host of an address is what stands between `://` and the next `/`, `?` or `#`.
pub proof fn the_host_ends_where_the_path_begins(
    scheme: Seq<char>,
    host: Seq<char>,
    rest: Seq<char>,
)
    requires
        forall|i: int| 0 <= i < scheme.len() ==> #[trigger] scheme[i] != ':',
        forall|i: int|
            0 <= i < host.len() ==> #[trigger] host[i] != '/' && host[i] != '?' && host[i] != '#',
        rest.len() > 0 ==> rest[0] == '/' || rest[0] == '?' || rest[0] == '#',
    ensures
        authority_of(scheme + "://"@ + host + rest) == Some(host),
{
    let url = scheme + "://"@ + host + rest;
    let n = scheme.len() as int;
    reveal_strlit("://");
    assert(url.subrange(n, n + 3) =~= "://"@);
    lemma_part_found(url, "://"@, 0, n);
    let tail = url.skip(n + 3);
    assert(tail =~= host + rest);
    lemma_authority_end(tail, 0, host.len() as int);
    assert(tail.take(host.len() as int) =~= host);
}

proof fn lemma_authority_end(s: Seq<char>, i: int, end: int)
    requires
        0 <= i <= end <= s.len(),
        forall|k: int| i <= k < end ==> #[trigger] s[k] != '/' && s[k] != '?' && s[k] != '#',
        end < s.len() ==> s[end] == '/' || s[end] == '?' || s[end] == '#',
    ensures
        authority_end(s, i) == end,
    decreases end - i,
{
    if i < end {
        lemma_authority_end(s, i + 1, end);
    }
}

proof fn lemma_part_found(s: Seq<char>, part: Seq<char>, from: int, at: int)
    requires
        0 <= from <= at,
        at + part.len() <= s.len(),
        part.len() > 0,
        s.subrange(at, at + part.len()) == part,
        forall|k: int| from <= k < at ==> #[trigger] s[k] != part[0],
    ensures
        text::find_part(s, part, from) == at,
    decreases at - from,
{
    if from < at {
        assert(s.subrange(from, from + part.len())[0] == s[from]);
        lemma_part_found(s, part, from + 1, at);
    }
}

/// A session cookie is for this site alone, out of reach of scripts, and goes over HTTPS alone
/// where it came so.
pub proof fn session_cookies_keep_to_their_site(token: Seq<char>, max_age: nat)
    ensures
        ({
            let open = session_cookie_text(token, max_age, false);
            let secure = session_cookie_text(token, max_age, true);
            &&& open == "printhub_session="@ + token
                + "; Path=/; HttpOnly; SameSite=Lax; Max-Age="@ + text::decimal(max_age)
            &&& secure == open + "; Secure"@
        }),
{
    reveal_strlit("");
    let open = "printhub_session="@ + token + "; Path=/; HttpOnly; SameSite=Lax; Max-Age="@
        + text::decimal(max_age);
    assert(open + ""@ =~= open);
}

} // verus!
