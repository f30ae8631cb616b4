//! The MQTT session with the printer. The whole app shares one connection, because the printer
//! only admits a few clients and the slicer or phone app may want one too.
//!
//! `Link` is what is known of the connection and of the printer behind it, and `Phase` how far
//! the session has come. Whoever holds the connection tells them what happened and does what
//! they answer.

use vstd::prelude::*;

use crate::cc2::methods::{self, Envelope};
use crate::cc2::model::{Attributes, CanvasInfo, CanvasStatus, StatusView};
use crate::cc2::read;
use crate::cc2::status::{deep_merge, SequenceTracker, StatusCache};
use crate::json::{self, Json, Value};
use crate::lists;
use crate::num;
use crate::text;

verus! {

pub const MQTT_PORT: u16 = 1883;

pub const MQTT_USERNAME: &'static str = "elegoo";

/// Protocol timings, in milliseconds. Tests shorten them; production uses [`Timing::default`].
#[derive(Debug, Clone, Copy, PartialEq, Eq, Structural)]
pub struct Timing {
    pub heartbeat_interval: u64,
    /// The printer drops a client after 65 s without a PING; the same silence from the
    /// printer's side means the link is dead even if TCP has not noticed.
    pub heartbeat_timeout: u64,
    pub register_timeout: u64,
    pub register_retry: u64,
    pub command_timeout: u64,
    /// Tray contents are not part of status deltas, so they are polled.
    pub canvas_refresh: u64,
    pub full_status_refresh: u64,
}

impl Default for Timing {
    fn default() -> (r: Timing)
        ensures
            r == (Timing {
                heartbeat_interval: 10_000,
                heartbeat_timeout: 65_000,
                register_timeout: 3_000,
                register_retry: 10_000,
                command_timeout: 10_000,
                canvas_refresh: 30_000,
                full_status_refresh: 300_000,
            }),
    {
        Timing {
            heartbeat_interval: 10_000,
            heartbeat_timeout: 65_000,
            register_timeout: 3_000,
            register_retry: 10_000,
            command_timeout: 10_000,
            canvas_refresh: 30_000,
            full_status_refresh: 300_000,
        }
    }
}

/// The longest wait between two attempts to connect, in milliseconds.
pub const MAX_BACKOFF: u64 = 30_000;

/// The first wait between two attempts to connect, in milliseconds.
pub const FIRST_BACKOFF: u64 = 1_000;

/// File lists and base64 thumbnails are far larger than the 10 KB an MQTT client takes by
/// default.
pub const MAX_INCOMING_PACKET: usize = 8_388_608;

pub const MAX_OUTGOING_PACKET: usize = 1_048_576;

#[derive(Debug, Clone, PartialEq, Eq)]
pub struct ClientConfig {
    pub host: String,
    pub port: u16,
    pub serial: String,
    pub password: String,
    pub timing: Timing,
}

#[derive(Debug, Clone, PartialEq, Eq)]
pub enum LinkState {
    /// Looking for the printer; the last attempt failed so.
    Discovering(String),
    Connecting,
    /// Connected at the MQTT level, but the printer refused registration, e.g. `too many clients`.
    Rejected(String),
    Registered,
    Disconnected(String),
}

impl LinkState {
    /// Both say the same.
    pub open spec fn same(self, other: LinkState) -> bool {
        match (self, other) {
            (LinkState::Discovering(a), LinkState::Discovering(b)) => a@ == b@,
            (LinkState::Connecting, LinkState::Connecting) => true,
            (LinkState::Registered, LinkState::Registered) => true,
            (LinkState::Rejected(a), LinkState::Rejected(b)) => a@ == b@,
            (LinkState::Disconnected(a), LinkState::Disconnected(b)) => a@ == b@,
            _ => false,
        }
    }

    pub fn is_same(&self, other: &LinkState) -> (r: bool)
        ensures
            r == self.same(*other),
    {
        match (self, other) {
            (LinkState::Discovering(a), LinkState::Discovering(b)) => text::same(
                a.as_str(),
                b.as_str(),
            ),
            (LinkState::Connecting, LinkState::Connecting) => true,
            (LinkState::Registered, LinkState::Registered) => true,
            (LinkState::Rejected(a), LinkState::Rejected(b)) => text::same(a.as_str(), b.as_str()),
            (LinkState::Disconnected(a), LinkState::Disconnected(b)) => text::same(
                a.as_str(),
                b.as_str(),
            ),
            _ => false,
        }
    }
}

/// Last known printer state. Fields keep their last value across disconnects; `link` says how
/// stale they may be.
#[derive(Debug, Clone, PartialEq, Eq)]
pub struct PrinterSnapshot {
    pub link: LinkState,
    pub status: Option<StatusView>,
    pub canvas: Option<CanvasInfo>,
    pub attributes: Option<Attributes>,
}

/// What a command failed with. `Mqtt` and `Decode` hold the words of the connection and of the
/// decoder.
#[derive(Debug, PartialEq, Eq)]
pub enum CommandError {
    NotRegistered,
    Timeout { method: u32 },
    ConnectionLost { method: u32 },
    Printer { method: u32, code: i64 },
    Mqtt(String),
    Decode { method: u32, reason: String },
}

impl CommandError {
    pub open spec fn text(self) -> Seq<char> {
        match self {
            CommandError::NotRegistered => "not registered with the printer"@,
            CommandError::Timeout { method } => "printer did not answer method "@ + text::decimal(
                method as nat,
            ) + " in time"@,
            CommandError::ConnectionLost { method } => "connection lost before method "@
                + text::decimal(method as nat) + " was answered"@,
            CommandError::Printer { method, code } => "printer rejected method "@ + text::decimal(
                method as nat,
            ) + " with error code "@ + text::decimal_int(code as int),
            CommandError::Mqtt(reason) => "mqtt: "@ + reason@,
            CommandError::Decode { method, reason } => "unexpected response to method "@
                + text::decimal(method as nat) + ": "@ + reason@,
        }
    }

    pub fn message(&self) -> (r: String)
        ensures
            r@ == self.text(),
    {
        let mut out = String::new();
        match self {
            CommandError::NotRegistered => {
                out.append("not registered with the printer");
            },
            CommandError::Timeout { method } => {
                out.append("printer did not answer method ");
                text::push_decimal(&mut out, *method as u64);
                out.append(" in time");
            },
            CommandError::ConnectionLost { method } => {
                out.append("connection lost before method ");
                text::push_decimal(&mut out, *method as u64);
                out.append(" was answered");
            },
            CommandError::Printer { method, code } => {
                out.append("printer rejected method ");
                text::push_decimal(&mut out, *method as u64);
                out.append(" with error code ");
                text::push_decimal_int(&mut out, *code);
            },
            CommandError::Mqtt(reason) => {
                out.append("mqtt: ");
                out.append(reason.as_str());
            },
            CommandError::Decode { method, reason } => {
                out.append("unexpected response to method ");
                text::push_decimal(&mut out, *method as u64);
                out.append(": ");
                out.append(reason.as_str());
            },
        }
        assert(out@ =~= self.text());
        out
    }

    pub fn printer_code(&self) -> (r: Option<i64>)
        ensures
            r == match *self {
                CommandError::Printer { method, code } => Some(code),
                _ => None,
            },
    {
        match self {
            CommandError::Printer { code, .. } => Some(*code),
            _ => None,
        }
    }
}

/// The MQTT topics of one client.
#[derive(Debug, Clone, PartialEq, Eq)]
pub struct Topics {
    pub register: String,
    pub register_response: String,
    pub request: String,
    pub response: String,
    pub status: String,
}

pub open spec fn topic_of(serial: Seq<char>, tail: Seq<char>) -> Seq<char> {
    "elegoo/"@ + serial + "/"@ + tail
}

fn topic(serial: &str, owner: &str, name: &str) -> (r: String)
    ensures
        r@ == topic_of(serial@, owner@ + name@),
{
    let mut out = String::new();
    out.append("elegoo/");
    out.append(serial);
    out.append("/");
    out.append(owner);
    out.append(name);
    assert(out@ =~= topic_of(serial@, owner@ + name@));
    out
}

impl Topics {
    pub fn new(serial: &str, client_id: &str, request_id: &str) -> (r: Topics)
        ensures
            r.register@ == topic_of(serial@, "api_register"@),
            r.register_response@ == topic_of(serial@, request_id@ + "/register_response"@),
            r.request@ == topic_of(serial@, client_id@ + "/api_request"@),
            r.response@ == topic_of(serial@, client_id@ + "/api_response"@),
            r.status@ == topic_of(serial@, "api_status"@),
    {
        proof {
            reveal_strlit("");
            assert(""@ + "api_register"@ =~= "api_register"@);
            assert(""@ + "api_status"@ =~= "api_status"@);
        }
        Topics {
            register: topic(serial, "", "api_register"),
            register_response: topic(serial, request_id, "/register_response"),
            request: topic(serial, client_id, "/api_request"),
            response: topic(serial, client_id, "/api_response"),
            status: topic(serial, "", "api_status"),
        }
    }
}

// ---------------------------------------------------------------------------------------------
// What is known
// ---------------------------------------------------------------------------------------------

/// The state of the connection. Times are in milliseconds of one clock.
#[derive(Debug, PartialEq, Eq)]
pub struct Link {
    pub registered: bool,
    pub full_refresh_in_flight: bool,
    pub next_id: u64,
    /// The requests that wait for an answer.
    pub pending: Vec<u64>,
    /// Whether a registration waits for its answer.
    pub registering: bool,
    pub last_pong: u64,
    pub cache: StatusCache,
    /// Kept raw because attribute events (6008) may carry only the changed fields.
    pub attributes: Json,
    pub snapshot: PrinterSnapshot,
}

/// Which of the client's topics a message came on.
#[derive(Debug, Clone, Copy, PartialEq, Eq, Structural)]
pub enum Route {
    RegisterResponse,
    Response,
    Status,
    Other,
}

pub open spec fn route_of(topics: Topics, topic: Seq<char>) -> Route {
    if topic == topics.register_response@ {
        Route::RegisterResponse
    } else if topic == topics.response@ {
        Route::Response
    } else if topic == topics.status@ {
        Route::Status
    } else {
        Route::Other
    }
}

pub fn route(topics: &Topics, topic: &str) -> (r: Route)
    ensures
        r == route_of(*topics, topic@),
{
    if text::same(topic, topics.register_response.as_str()) {
        Route::RegisterResponse
    } else if text::same(topic, topics.response.as_str()) {
        Route::Response
    } else if text::same(topic, topics.status.as_str()) {
        Route::Status
    } else {
        Route::Other
    }
}

/// A view after something was said: read from it, or as it was where that does not read.
pub open spec fn status_shown(
    before: Option<StatusView>,
    after: Option<StatusView>,
    said: Value,
) -> bool {
    if read::status_reads(said) {
        after matches Some(view) && view.shows(said)
    } else {
        after == before
    }
}

pub open spec fn canvas_shown(
    before: Option<CanvasInfo>,
    after: Option<CanvasInfo>,
    said: Value,
) -> bool {
    if read::canvas_status_reads(said) {
        after matches Some(info) && (CanvasStatus { canvas_info: info }).shows(said)
    } else {
        after == before
    }
}

pub open spec fn attributes_shown(
    before: Option<Attributes>,
    after: Option<Attributes>,
    said: Value,
) -> bool {
    if read::attributes_read(said) {
        after matches Some(attributes) && attributes.shows(said)
    } else {
        after == before
    }
}

/// What to do when a heartbeat is due.
#[derive(Debug, Clone, Copy, PartialEq, Eq, Structural)]
pub enum Heartbeat {
    Ping,
    Reconnect,
}

/// How a request ended.
#[derive(Debug, PartialEq, Eq)]
pub enum Outcome {
    Answered(Envelope),
    Lost,
    TimedOut,
}

/// How an attempt to register ended.
#[derive(Debug, PartialEq, Eq)]
pub enum RegisterOutcome {
    Answered(String),
    Interrupted,
    TimedOut,
    NotSent(String),
}

pub open spec fn is_other(id: u64) -> spec_fn(u64) -> bool {
    |other: u64| other != id
}

fn without(ids: &Vec<u64>, id: u64) -> (r: Vec<u64>)
    ensures
        r@ == ids@.filter(is_other(id)),
{
    let ghost p = is_other(id);
    let mut out: Vec<u64> = Vec::new();
    proof {
        crate::lists::lemma_filter_ends(ids@, p);
    }
    let mut i: usize = 0;
    while i < ids.len()
        invariant
            i <= ids@.len(),
            p == is_other(id),
            out@ == ids@.take(i as int).filter(p),
        decreases ids.len() - i,
    {
        proof {
            crate::lists::lemma_filter_step(ids@, p, i as int);
        }
        if ids[i] != id {
            out.push(ids[i]);
        }
        i += 1;
    }
    out
}

fn holds(ids: &Vec<u64>, id: u64) -> (r: bool)
    ensures
        r == ids@.contains(id),
{
    let mut i: usize = 0;
    while i < ids.len()
        invariant
            i <= ids@.len(),
            forall|k: int| 0 <= k < i ==> ids@[k] != id,
        decreases ids.len() - i,
    {
        if ids[i] == id {
            return true;
        }
        i += 1;
    }
    false
}

impl Link {
    /// A link that has not connected yet.
    pub fn new(now: u64) -> (r: Link)
        ensures
            !r.registered,
            !r.full_refresh_in_flight,
            r.next_id == 1,
            r.pending@.len() == 0,
            !r.registering,
            r.last_pong == now,
            r.cache.content() == Value::Object(seq![]),
            !r.cache.is_full(),
            r.attributes.value() == Value::Object(seq![]),
            r.snapshot.link is Connecting,
            r.snapshot.status is None,
            r.snapshot.canvas is None,
            r.snapshot.attributes is None,
    {
        Link {
            registered: false,
            full_refresh_in_flight: false,
            next_id: 1,
            pending: Vec::new(),
            registering: false,
            last_pong: now,
            cache: StatusCache::default(),
            attributes: Json::Object(Vec::new()),
            snapshot: PrinterSnapshot {
                link: LinkState::Connecting,
                status: None,
                canvas: None,
                attributes: None,
            },
        }
    }

    /// Everything but what is in flight is as in `old`.
    pub open spec fn same_but_for_requests(self, old: Link) -> bool {
        &&& self.registered == old.registered
        &&& self.full_refresh_in_flight == old.full_refresh_in_flight
        &&& self.registering == old.registering
        &&& self.last_pong == old.last_pong
        &&& self.cache == old.cache
        &&& self.attributes == old.attributes
        &&& self.snapshot == old.snapshot
    }

    /// The number for a new request, which from now on waits for its answer.
    pub fn begin_request(&mut self) -> (r: Result<u64, CommandError>)
        ensures
            final(self).same_but_for_requests(*old(self)),
            if old(self).registered {
                &&& r == Ok::<u64, CommandError>(old(self).next_id)
                &&& final(self).pending@ == old(self).pending@.push(old(self).next_id)
                &&& final(self).next_id == if old(self).next_id == u64::MAX {
                    0
                } else {
                    old(self).next_id + 1
                }
            } else {
                &&& r == Err::<u64, CommandError>(CommandError::NotRegistered)
                &&& *final(self) == *old(self)
            },
    {
        if !self.registered {
            return Err(CommandError::NotRegistered);
        }
        let id: u64 = self.next_id;
        self.next_id = if id == u64::MAX {
            0
        } else {
            id + 1
        };
        self.pending.push(id);
        Ok(id)
    }

    /// A request waits no longer.
    pub fn end_request(&mut self, id: u64)
        ensures
            final(self).same_but_for_requests(*old(self)),
            final(self).next_id == old(self).next_id,
            final(self).pending@ == old(self).pending@.filter(is_other(id)),
    {
        self.pending = without(&self.pending, id);
    }

    pub open spec fn answers(self, id: Option<u64>) -> Option<u64> {
        match id {
            Some(id) => if self.pending@.contains(id) {
                Some(id)
            } else {
                None
            },
            None => None,
        }
    }

    /// Everything but what is shown is as in `old`.
    pub open spec fn same_but_for_views(self, old: Link) -> bool {
        &&& self.registered == old.registered
        &&& self.full_refresh_in_flight == old.full_refresh_in_flight
        &&& self.next_id == old.next_id
        &&& self.pending == old.pending
        &&& self.registering == old.registering
        &&& self.last_pong == old.last_pong
        &&& self.cache == old.cache
        &&& self.attributes == old.attributes
        &&& self.snapshot.link == old.snapshot.link
    }

    fn show_status(&mut self)
        ensures
            final(self).same_but_for_views(*old(self)),
            status_shown(
                old(self).snapshot.status,
                final(self).snapshot.status,
                old(self).cache.content(),
            ),
            final(self).snapshot.canvas == old(self).snapshot.canvas,
            final(self).snapshot.attributes == old(self).snapshot.attributes,
    {
        if let Some(view) = self.cache.view() {
            self.snapshot.status = Some(view);
        }
    }

    fn show_canvas(&mut self, said: &Json)
        ensures
            final(self).same_but_for_views(*old(self)),
            canvas_shown(old(self).snapshot.canvas, final(self).snapshot.canvas, said.value()),
            final(self).snapshot.status == old(self).snapshot.status,
            final(self).snapshot.attributes == old(self).snapshot.attributes,
    {
        if let Some(read) = CanvasStatus::read(said) {
            self.snapshot.canvas = Some(read.canvas_info);
        }
    }

    fn show_attributes(&mut self)
        ensures
            final(self).same_but_for_views(*old(self)),
            attributes_shown(
                old(self).snapshot.attributes,
                final(self).snapshot.attributes,
                old(self).attributes.value(),
            ),
            final(self).snapshot.status == old(self).snapshot.status,
            final(self).snapshot.canvas == old(self).snapshot.canvas,
    {
        if let Some(read) = Attributes::read(&self.attributes) {
            self.snapshot.attributes = Some(read);
        }
    }

    /// Takes in a response, and says which request it is to be handed to. Never waits: it is
    /// called from the loop that drains the connection.
    pub fn on_response(&mut self, envelope: &Envelope, now: u64) -> (r: Option<u64>)
        ensures
            final(self).registered == old(self).registered,
            final(self).full_refresh_in_flight == old(self).full_refresh_in_flight,
            final(self).registering == old(self).registering,
            final(self).next_id == old(self).next_id,
            final(self).snapshot.link == old(self).snapshot.link,
            final(self).last_pong == if envelope.pong() {
                now
            } else {
                old(self).last_pong
            },
            ({
                let heard = !envelope.pong() && envelope.succeeded();
                let said = envelope.result.value();
                let (before, after) = (old(self).snapshot, final(self).snapshot);
                &&& if heard && envelope.method == Some(methods::GET_STATUS) {
                    &&& final(self).cache.is_full()
                    &&& final(self).cache.content() == if said is Object {
                        said
                    } else {
                        Value::Object(seq![])
                    }
                    &&& final(self).cache.tracker() == (SequenceTracker {
                        last: crate::cc2::status::frame_number(envelope.id, said),
                        consecutive_gaps: 0,
                    })
                    &&& status_shown(before.status, after.status, final(self).cache.content())
                } else {
                    final(self).cache == old(self).cache && after.status == before.status
                }
                &&& if heard && envelope.method == Some(methods::GET_CANVAS_STATUS) {
                    canvas_shown(before.canvas, after.canvas, said)
                } else {
                    after.canvas == before.canvas
                }
                &&& if heard && envelope.method == Some(methods::GET_ATTRIBUTES) {
                    &&& final(self).attributes.value() == said
                    &&& attributes_shown(before.attributes, after.attributes, said)
                } else {
                    &&& final(self).attributes == old(self).attributes
                    &&& after.attributes == before.attributes
                }
            }),
            r == if envelope.pong() {
                None
            } else {
                old(self).answers(envelope.id)
            },
            final(self).pending@ == match r {
                Some(id) => old(self).pending@.filter(is_other(id)),
                None => old(self).pending@,
            },
    {
        if envelope.is_pong() {
            self.last_pong = now;
            return None;
        }
        let succeeded = match envelope.error_code() {
            Some(code) => code == methods::error_code::SUCCESS,
            None => true,
        };
        if succeeded {
            if let Some(method) = envelope.method {
                if method == methods::GET_STATUS {
                    self.cache.apply_full(envelope.id, envelope.result.duplicate());
                    self.show_status();
                } else if method == methods::GET_CANVAS_STATUS {
                    self.show_canvas(&envelope.result);
                } else if method == methods::GET_ATTRIBUTES {
                    self.attributes = envelope.result.duplicate();
                    self.show_attributes();
                }
            }
        }
        if let Some(id) = envelope.id {
            if holds(&self.pending, id) {
                self.pending = without(&self.pending, id);
                return Some(id);
            }
        }
        None
    }

    /// An event that the printer sent by itself. Returns whether to ask for a full status, which
    /// is when one is needed and none is on its way; `refresh_done` follows once it was answered.
    pub fn on_status_event(&mut self, envelope: Envelope) -> (r: bool)
        ensures
            final(self).registered == old(self).registered,
            final(self).registering == old(self).registering,
            final(self).next_id == old(self).next_id,
            final(self).pending@ == old(self).pending@,
            final(self).last_pong == old(self).last_pong,
            final(self).snapshot.link == old(self).snapshot.link,
            final(self).snapshot.canvas == old(self).snapshot.canvas,
            final(self).full_refresh_in_flight == (old(self).full_refresh_in_flight || r),
            ({
                let said = envelope.result.value();
                let (before, after) = (old(self).snapshot, final(self).snapshot);
                &&& if envelope.method == Some(methods::EVENT_STATUS) {
                    let number = crate::cc2::status::frame_number(envelope.id, said);
                    let tracker = old(self).cache.tracker();
                    let drifted = number is Some && tracker.has_drifted(number->0);
                    &&& final(self).cache.content() == json::merged(
                        old(self).cache.content(),
                        said,
                    )
                    &&& final(self).cache.is_full() == old(self).cache.is_full()
                    &&& final(self).cache.tracker() == if number is Some {
                        tracker.after(number->0)
                    } else {
                        tracker
                    }
                    &&& if old(self).cache.is_full() {
                        status_shown(before.status, after.status, final(self).cache.content())
                    } else {
                        after.status == before.status
                    }
                    &&& r == ((drifted || !old(self).cache.is_full()) && old(self).registered
                        && !old(self).full_refresh_in_flight)
                } else {
                    final(self).cache == old(self).cache && after.status == before.status && !r
                }
                &&& if envelope.method == Some(methods::EVENT_ATTRIBUTES) {
                    let merged = json::merged(old(self).attributes.value(), said);
                    &&& final(self).attributes.value() == merged
                    &&& attributes_shown(before.attributes, after.attributes, merged)
                } else {
                    &&& final(self).attributes == old(self).attributes
                    &&& after.attributes == before.attributes
                }
            }),
    {
        if let Some(method) = envelope.method {
            if method == methods::EVENT_STATUS {
                let needs_full_frame = self.cache.apply_delta(envelope.id, envelope.result);
                // A view built before the first full frame would show defaults (status 0 reads
                // as "initializing") for every field no delta has mentioned yet.
                if self.cache.has_full_frame() {
                    self.show_status();
                }
                if needs_full_frame && self.registered && !self.full_refresh_in_flight {
                    self.full_refresh_in_flight = true;
                    return true;
                }
            } else if method == methods::EVENT_ATTRIBUTES {
                deep_merge(&mut self.attributes, envelope.result);
                self.show_attributes();
            }
        }
        false
    }

    pub fn refresh_done(&mut self)
        ensures
            !final(self).full_refresh_in_flight,
            final(self).registered == old(self).registered,
            final(self).registering == old(self).registering,
            final(self).next_id == old(self).next_id,
            final(self).pending@ == old(self).pending@,
            final(self).last_pong == old(self).last_pong,
            final(self).cache == old(self).cache,
            final(self).attributes == old(self).attributes,
            final(self).snapshot == old(self).snapshot,
    {
        self.full_refresh_in_flight = false;
    }

    /// Returns whether that is news.
    pub fn set_link(&mut self, link: LinkState) -> (r: bool)
        ensures
            r == !old(self).snapshot.link.same(link),
            final(self).snapshot.link.same(link),
            r ==> final(self).snapshot.link == link,
            !r ==> final(self).snapshot.link == old(self).snapshot.link,
            final(self).snapshot.status == old(self).snapshot.status,
            final(self).snapshot.canvas == old(self).snapshot.canvas,
            final(self).snapshot.attributes == old(self).snapshot.attributes,
            final(self).registered == old(self).registered,
            final(self).full_refresh_in_flight == old(self).full_refresh_in_flight,
            final(self).registering == old(self).registering,
            final(self).next_id == old(self).next_id,
            final(self).pending@ == old(self).pending@,
            final(self).last_pong == old(self).last_pong,
            final(self).cache == old(self).cache,
            final(self).attributes == old(self).attributes,
    {
        if self.snapshot.link.is_same(&link) {
            return false;
        }
        self.snapshot.link = link;
        true
    }

    /// Every request in flight fails, and so does a registration that waits.
    pub fn on_disconnect(&mut self, reason: String)
        ensures
            !final(self).registered,
            !final(self).full_refresh_in_flight,
            final(self).pending@.len() == 0,
            !final(self).registering,
            final(self).snapshot.link matches LinkState::Disconnected(said) && said@ == reason@,
            final(self).snapshot.status == old(self).snapshot.status,
            final(self).snapshot.canvas == old(self).snapshot.canvas,
            final(self).snapshot.attributes == old(self).snapshot.attributes,
            final(self).next_id == old(self).next_id,
            final(self).last_pong == old(self).last_pong,
            final(self).cache == old(self).cache,
            final(self).attributes == old(self).attributes,
    {
        self.registered = false;
        self.full_refresh_in_flight = false;
        self.pending = Vec::new();
        self.registering = false;
        let _changed = self.set_link(LinkState::Disconnected(reason));
    }

    /// The printer has taken the client.
    pub fn on_registered(&mut self, now: u64)
        ensures
            final(self).registered,
            final(self).last_pong == now,
            final(self).snapshot.link is Registered,
            final(self).snapshot.status == old(self).snapshot.status,
            final(self).snapshot.canvas == old(self).snapshot.canvas,
            final(self).snapshot.attributes == old(self).snapshot.attributes,
            final(self).full_refresh_in_flight == old(self).full_refresh_in_flight,
            final(self).registering == old(self).registering,
            final(self).next_id == old(self).next_id,
            final(self).pending@ == old(self).pending@,
            final(self).cache == old(self).cache,
            final(self).attributes == old(self).attributes,
    {
        self.last_pong = now;
        self.registered = true;
        let _changed = self.set_link(LinkState::Registered);
    }

    /// A heartbeat is due. After too long a silence the link counts as dead.
    pub fn on_heartbeat(&mut self, now: u64, timing: &Timing) -> (r: Heartbeat)
        ensures
            ({
                let silent = now - old(self).last_pong > timing.heartbeat_timeout;
                &&& r == if silent {
                    Heartbeat::Reconnect
                } else {
                    Heartbeat::Ping
                }
                &&& final(self).registered == (old(self).registered && !silent)
            }),
            final(self).snapshot == old(self).snapshot,
            final(self).full_refresh_in_flight == old(self).full_refresh_in_flight,
            final(self).registering == old(self).registering,
            final(self).next_id == old(self).next_id,
            final(self).pending@ == old(self).pending@,
            final(self).last_pong == old(self).last_pong,
            final(self).cache == old(self).cache,
            final(self).attributes == old(self).attributes,
    {
        if now > self.last_pong && now - self.last_pong > timing.heartbeat_timeout {
            self.registered = false;
            Heartbeat::Reconnect
        } else {
            Heartbeat::Ping
        }
    }
}

/// What a request that ended so comes to.
pub fn answer(method: u32, outcome: Outcome) -> (r: Result<Envelope, CommandError>)
    ensures
        match outcome {
            Outcome::Answered(envelope) => if envelope.succeeded() {
                r == Ok::<Envelope, CommandError>(envelope)
            } else {
                r == Err::<Envelope, CommandError>(
                    CommandError::Printer { method, code: envelope.code()->0 },
                )
            },
            Outcome::Lost => r == Err::<Envelope, CommandError>(
                CommandError::ConnectionLost { method },
            ),
            Outcome::TimedOut => r == Err::<Envelope, CommandError>(
                CommandError::Timeout { method },
            ),
        },
{
    match outcome {
        Outcome::Answered(envelope) => {
            match envelope.error_code() {
                Some(code) => {
                    if code != methods::error_code::SUCCESS {
                        return Err(CommandError::Printer { method, code });
                    }
                },
                None => {},
            }
            Ok(envelope)
        },
        Outcome::Lost => Err(CommandError::ConnectionLost { method }),
        Outcome::TimedOut => Err(CommandError::Timeout { method }),
    }
}

/// A time span, as `Duration` shows it.
pub open spec fn span_text(millis: nat) -> Seq<char> {
    if millis >= 1000 {
        num::thousandths_text(millis) + "s"@
    } else if millis > 0 {
        text::decimal(millis) + "ms"@
    } else {
        "0ns"@
    }
}

pub fn push_span(out: &mut String, millis: u64)
    ensures
        final(out)@ == old(out)@ + span_text(millis as nat),
{
    if millis >= 1000 {
        num::push_thousandths(out, millis);
        out.append("s");
    } else if millis > 0 {
        text::push_decimal(out, millis);
        out.append("ms");
    } else {
        out.append("0ns");
    }
    assert(out@ =~= old(out)@ + span_text(millis as nat));
}

pub open spec fn register_result(outcome: RegisterOutcome, timeout: u64) -> Result<(), Seq<char>> {
    match outcome {
        RegisterOutcome::Answered(error) => if error@ == "ok"@ {
            Ok(())
        } else {
            Err(error@)
        },
        RegisterOutcome::Interrupted => Err("registration interrupted"@),
        RegisterOutcome::TimedOut => Err(
            "no registration reply within "@ + span_text(timeout as nat),
        ),
        RegisterOutcome::NotSent(reason) => Err(reason@),
    }
}

/// Whether the printer took the client, or why it did not.
pub fn registration(outcome: RegisterOutcome, timing: &Timing) -> (r: Result<(), String>)
    ensures
        match r {
            Ok(_) => register_result(outcome, timing.register_timeout) is Ok,
            Err(reason) => register_result(outcome, timing.register_timeout) == Err::<
                (),
                Seq<char>,
            >(reason@),
        },
{
    match outcome {
        RegisterOutcome::Answered(error) => {
            if text::same(error.as_str(), "ok") {
                Ok(())
            } else {
                Err(error)
            }
        },
        RegisterOutcome::Interrupted => Err("registration interrupted".to_string()),
        RegisterOutcome::TimedOut => {
            let mut out = String::new();
            out.append("no registration reply within ");
            push_span(&mut out, timing.register_timeout);
            assert(out@ =~= "no registration reply within "@ + span_text(
                timing.register_timeout as nat,
            ));
            Err(out)
        },
        RegisterOutcome::NotSent(reason) => Err(reason),
    }
}

// ---------------------------------------------------------------------------------------------
// How the session goes
// ---------------------------------------------------------------------------------------------

/// How far a session has come, from the moment the connection is there.
#[derive(Debug, Clone, Copy, PartialEq, Eq, Structural)]
pub enum Phase {
    /// Subscribing to the given topic of three: responses, status, registration.
    Subscribing(u8),
    Registering,
    /// Waiting to register once more.
    Refused,
    /// Asking the given of three first questions: attributes, status, trays.
    Querying(u8),
    Running,
    Ended,
}

#[derive(Debug, Clone, Copy, PartialEq, Eq, Structural)]
pub enum SessionEvent {
    /// What was asked for last is done: a subscription, a wait, a question.
    Done,
    /// A subscription failed, a registration was refused.
    Failed,
    HeartbeatDue(Heartbeat),
    CanvasDue,
    StatusDue,
}

#[derive(Debug, Clone, Copy, PartialEq, Eq, Structural)]
pub enum SessionAction {
    /// The given topic of three: responses, status, registration.
    Subscribe(u8),
    Register,
    /// Wait `register_retry`.
    WaitToRegister,
    /// Send the method and wait for its answer.
    Query(u32),
    /// Wait for what is due next.
    WaitForTimers,
    Ping,
    Disconnect,
    Stop,
}

pub open spec fn first_question(n: u8) -> u32 {
    if n == 0 {
        methods::GET_ATTRIBUTES
    } else if n == 1 {
        methods::GET_STATUS
    } else {
        methods::GET_CANVAS_STATUS
    }
}

pub open spec fn phase_after(phase: Phase, event: SessionEvent) -> (Phase, SessionAction) {
    match (phase, event) {
        (Phase::Subscribing(n), SessionEvent::Done) => if n < 2 {
            (Phase::Subscribing((n + 1) as u8), SessionAction::Subscribe((n + 1) as u8))
        } else {
            (Phase::Registering, SessionAction::Register)
        },
        (Phase::Subscribing(_), SessionEvent::Failed) => (Phase::Ended, SessionAction::Stop),
        (Phase::Registering, SessionEvent::Done) => (
            Phase::Querying(0),
            SessionAction::Query(first_question(0)),
        ),
        (Phase::Registering, SessionEvent::Failed) => (
            Phase::Refused,
            SessionAction::WaitToRegister,
        ),
        (Phase::Refused, SessionEvent::Done) => (Phase::Registering, SessionAction::Register),
        (Phase::Querying(n), SessionEvent::Done | SessionEvent::Failed) => if n < 2 {
            (Phase::Querying((n + 1) as u8), SessionAction::Query(first_question((n + 1) as u8)))
        } else {
            (Phase::Running, SessionAction::WaitForTimers)
        },
        (Phase::Running, SessionEvent::HeartbeatDue(Heartbeat::Ping)) => (
            Phase::Running,
            SessionAction::Ping,
        ),
        (Phase::Running, SessionEvent::HeartbeatDue(Heartbeat::Reconnect)) => (
            Phase::Ended,
            SessionAction::Disconnect,
        ),
        (Phase::Running, SessionEvent::CanvasDue) => (
            Phase::Running,
            SessionAction::Query(methods::GET_CANVAS_STATUS),
        ),
        (Phase::Running, SessionEvent::StatusDue) => (
            Phase::Running,
            SessionAction::Query(methods::GET_STATUS),
        ),
        (Phase::Running, _) => (Phase::Running, SessionAction::WaitForTimers),
        (Phase::Ended, _) => (Phase::Ended, SessionAction::Stop),
        (Phase::Refused, _) => (Phase::Refused, SessionAction::WaitToRegister),
        (phase, _) => (phase, action_in(phase)),
    }
}

/// What a phase is about.
pub open spec fn action_in(phase: Phase) -> SessionAction {
    match phase {
        Phase::Subscribing(n) => SessionAction::Subscribe(n),
        Phase::Registering => SessionAction::Register,
        Phase::Refused => SessionAction::WaitToRegister,
        Phase::Querying(n) => SessionAction::Query(first_question(n)),
        Phase::Running => SessionAction::WaitForTimers,
        Phase::Ended => SessionAction::Stop,
    }
}

fn question(n: u8) -> (r: u32)
    ensures
        r == first_question(n),
{
    if n == 0 {
        methods::GET_ATTRIBUTES
    } else if n == 1 {
        methods::GET_STATUS
    } else {
        methods::GET_CANVAS_STATUS
    }
}

/// Runs from each ConnAck until the connection drops. Topics are subscribed before registering:
/// the registration reply goes to a topic nobody listens on otherwise, and the printer does not
/// repeat it.
pub fn run_session(phase: Phase, event: SessionEvent) -> (r: (Phase, SessionAction))
    ensures
        r == phase_after(phase, event),
{
    match phase {
        Phase::Subscribing(n) => match event {
            SessionEvent::Done => {
                if n < 2 {
                    (Phase::Subscribing(n + 1), SessionAction::Subscribe(n + 1))
                } else {
                    (Phase::Registering, SessionAction::Register)
                }
            },
            SessionEvent::Failed => (Phase::Ended, SessionAction::Stop),
            _ => (phase, SessionAction::Subscribe(n)),
        },
        Phase::Registering => match event {
            SessionEvent::Done => (Phase::Querying(0), SessionAction::Query(question(0))),
            SessionEvent::Failed => (Phase::Refused, SessionAction::WaitToRegister),
            _ => (phase, SessionAction::Register),
        },
        Phase::Refused => match event {
            SessionEvent::Done => (Phase::Registering, SessionAction::Register),
            _ => (phase, SessionAction::WaitToRegister),
        },
        Phase::Querying(n) => match event {
            SessionEvent::Done | SessionEvent::Failed => {
                if n < 2 {
                    (Phase::Querying(n + 1), SessionAction::Query(question(n + 1)))
                } else {
                    (Phase::Running, SessionAction::WaitForTimers)
                }
            },
            _ => (phase, SessionAction::Query(question(n))),
        },
        Phase::Running => match event {
            SessionEvent::HeartbeatDue(Heartbeat::Ping) => (Phase::Running, SessionAction::Ping),
            SessionEvent::HeartbeatDue(Heartbeat::Reconnect) => (
                Phase::Ended,
                SessionAction::Disconnect,
            ),
            SessionEvent::CanvasDue => (
                Phase::Running,
                SessionAction::Query(methods::GET_CANVAS_STATUS),
            ),
            SessionEvent::StatusDue => (Phase::Running, SessionAction::Query(methods::GET_STATUS)),
            _ => (Phase::Running, SessionAction::WaitForTimers),
        },
        Phase::Ended => (Phase::Ended, SessionAction::Stop),
    }
}

/// A session that starts with its first subscription, after a run of events.
pub open spec fn session_after(events: Seq<SessionEvent>) -> (Phase, SessionAction)
    decreases events.len(),
{
    if events.len() == 0 {
        (Phase::Subscribing(0), SessionAction::Subscribe(0))
    } else {
        phase_after(session_after(events.drop_last()).0, events.last())
    }
}

/// How many events of the kind there were.
pub open spec fn done_count(events: Seq<SessionEvent>) -> nat
    decreases events.len(),
{
    if events.len() == 0 {
        0
    } else {
        done_count(events.drop_last()) + if events.last() == SessionEvent::Done {
            1nat
        } else {
            0
        }
    }
}

/// Whatever happens, nothing is asked of the printer and no registration is sent before all
/// three topics are subscribed, and nothing is asked before the printer took the client.
pub proof fn a_session_subscribes_then_registers_then_asks(events: Seq<SessionEvent>)
    ensures
        session_after(events).0 matches Phase::Subscribing(n) ==> n == done_count(events) && n <= 2,
        session_after(events).1 is Register ==> done_count(events) >= 3,
        session_after(events).1 is Query ==> done_count(events) >= 4,
        session_after(events).0 is Registering || session_after(events).0 is Refused ==> done_count(
            events,
        ) >= 3,
        session_after(events).0 is Querying || session_after(events).0 is Running ==> done_count(
            events,
        ) >= 4,
    decreases events.len(),
{
    if events.len() > 0 {
        a_session_subscribes_then_registers_then_asks(events.drop_last());
    }
}

/// The wait after the next failure to connect.
pub open spec fn backoff_after(backoff: u64) -> int {
    if 2 * backoff < MAX_BACKOFF {
        2 * backoff
    } else {
        MAX_BACKOFF as int
    }
}

pub fn next_backoff(backoff: u64) -> (r: u64)
    ensures
        r == backoff_after(backoff),
{
    if backoff < MAX_BACKOFF / 2 {
        2 * backoff
    } else {
        MAX_BACKOFF
    }
}

/// A request can only be answered once: after its answer it waits no more.
pub proof fn a_request_is_answered_once(pending: Seq<u64>, id: u64)
    ensures
        !pending.filter(is_other(id)).contains(id),
{
    crate::lists::lemma_filter_positions(pending, is_other(id));
    let left = pending.filter(is_other(id));
    if left.contains(id) {
        let k = choose|k: int| 0 <= k < left.len() && left[k] == id;
        assert(is_other(id)(left[k]));
    }
}

// ---------------------------------------------------------------------------------------------
// Names
// ---------------------------------------------------------------------------------------------

/// `std::time::SystemTime::elapsed` of `std::time::UNIX_EPOCH`, in milliseconds. `None` for a clock
/// before 1970. Nothing is known of the number.
#[verifier::external_body]
fn millis_since_epoch() -> (r: Option<u128>) {
    std::time::UNIX_EPOCH.elapsed().ok().map(|age| age.as_millis())
}

/// Milliseconds since 1970, 0 for a clock before that.
fn unix_millis() -> (r: u128) {
    match millis_since_epoch() {
        Some(millis) => millis,
        None => 0,
    }
}

/// `std::hash::RandomState::new`, which seeds a hasher at random.
pub assume_specification[ std::hash::RandomState::new ]() -> std::hash::RandomState;

/// `std::hash::BuildHasher::hash_one`. The seed decides, so nothing is known of the number.
#[verifier::external_body]
fn hash_one(state: &std::hash::RandomState, salt: u128) -> (r: u64) {
    std::hash::BuildHasher::hash_one(state, salt)
}

fn random_u64(salt: u128) -> (r: u64) {
    hash_one(&std::hash::RandomState::new(), salt)
}

/// `0cli`, the last five hex digits of the clock, three random ones or more, cut to ten
/// characters.
pub open spec fn client_id_text(millis: nat, random: nat) -> Seq<char> {
    let clock = text::hexadecimal(millis);
    let tail = if clock.len() > 5 {
        clock.skip(clock.len() - 5)
    } else {
        clock
    };
    let id = "0cli"@ + tail + text::zero_padded(text::hexadecimal(random % 4096), 3);
    if id.len() > 10 {
        id.take(10)
    } else {
        id
    }
}

pub fn client_id_from(millis: u128, random: u64) -> (r: String)
    ensures
        r@ == client_id_text(millis as nat, random as nat),
{
    let clock = text::hexadecimal_string(millis);
    let clock_chars = text::chars(clock.as_str());
    let start: usize = if clock_chars.len() > 5 {
        clock_chars.len() - 5
    } else {
        0
    };
    let tail = text::string(vstd::slice::slice_subrange(clock_chars.as_slice(), start, clock_chars.len()));
    let mut id = String::new();
    id.append("0cli");
    id.append(tail.as_str());
    let noise = text::hexadecimal_string((random % 4096) as u128);
    text::push_zero_padded(&mut id, noise.as_str(), 3);
    let ghost whole = id@;
    proof {
        let spec_clock = text::hexadecimal(millis as nat);
        let spec_tail = if spec_clock.len() > 5 {
            spec_clock.skip(spec_clock.len() - 5)
        } else {
            spec_clock
        };
        assert(tail@ =~= spec_tail);
        assert(whole =~= "0cli"@ + spec_tail + text::zero_padded(
            text::hexadecimal((random % 4096) as nat),
            3,
        ));
    }
    let id_chars = text::chars(id.as_str());
    if id_chars.len() > 10 {
        text::string(vstd::slice::slice_subrange(id_chars.as_slice(), 0, 10))
    } else {
        id
    }
}

pub open spec fn is_client_id(id: Seq<char>) -> bool {
    &&& 8 <= id.len() <= 10
    &&& id.take(4) == "0cli"@
    &&& forall|i: int| 4 <= i < id.len() ==> text::is_hex_digit(#[trigger] id[i])
}

/// Client ids look like those of the printer's own web interface.
pub proof fn client_ids_have_one_shape(millis: nat, random: nat)
    ensures
        is_client_id(client_id_text(millis, random)),
        millis >= 256 ==> client_id_text(millis, random).len() == 10,
{
    reveal_strlit("0cli");
    text::lemma_hexadecimal(millis);
    text::lemma_hexadecimal(random % 4096);
    let id = client_id_text(millis, random);
    assert(id.take(4) =~= "0cli"@);
    if millis >= 256 {
        text::lemma_hexadecimal(millis / 256);
        assert(millis / 16 >= 16);
        assert(millis / 16 / 16 == millis / 256);
        assert(text::hexadecimal(millis / 16).len() == text::hexadecimal(millis / 256).len() + 1);
    }
}

/// Same shape as the printer's own web interface: `0cli`, the last five hex digits of the
/// millisecond clock, random hex, cut to ten characters.
pub fn client_id() -> (r: String)
    ensures
        is_client_id(r@),
        exists|millis: nat, random: nat| r@ == #[trigger] client_id_text(millis, random),
{
    let millis: u128 = unix_millis();
    let random: u64 = random_u64(millis);
    proof {
        client_ids_have_one_shape(millis as nat, random as nat);
    }
    client_id_from(millis, random)
}

pub open spec fn request_id_text(millis: nat, random: nat) -> Seq<char> {
    text::zero_padded(text::hexadecimal(random), 16) + text::hexadecimal(millis)
}

pub fn request_id_from(millis: u128, random: u64) -> (r: String)
    ensures
        r@ == request_id_text(millis as nat, random as nat),
{
    let mut id = String::new();
    let noise = text::hexadecimal_string(random as u128);
    text::push_zero_padded(&mut id, noise.as_str(), 16);
    let clock = text::hexadecimal_string(millis);
    id.append(clock.as_str());
    assert(id@ =~= request_id_text(millis as nat, random as nat));
    id
}

pub fn request_id() -> (r: String)
    ensures
        exists|millis: nat, random: nat| r@ == #[trigger] request_id_text(millis, random),
{
    let millis: u128 = unix_millis();
    request_id_from(millis, random_u64(millis))
}

/// The wait doubles with every failure to connect, up to half a minute, and never shrinks.
pub proof fn waits_double_up_to_half_a_minute(backoff: u64)
    requires
        1 <= backoff <= 30_000,
    ensures
        backoff_after(backoff) <= 30_000,
        backoff_after(backoff) == 2 * backoff || backoff_after(backoff) == 30_000 && 2 * backoff
            >= 30_000,
        FIRST_BACKOFF == 1_000,
{
}

/// An answer goes to the request that has its number and waits, and to no other; all others go on
/// waiting.
pub proof fn an_answer_goes_to_its_request(link: Link, id: Option<u64>, other: u64)
    ensures
        link.answers(id) == Some(other) <==> id == Some(other) && link.pending@.contains(other),
        id matches Some(id) ==> (link.pending@.filter(is_other(id)).contains(other)
            <==> link.pending@.contains(other) && other != id),
{
    if let Some(id) = id {
        lists::filtering_keeps_what_is_picked(link.pending@, is_other(id), other);
    }
}

/// A session that runs goes on until the printer has been silent too long: it pings when a
/// heartbeat is due, and asks for the trays (2005) and for the status (1002) when they are due.
pub proof fn a_running_session_ends_by_silence_alone(event: SessionEvent)
    ensures
        ({
            let (phase, action) = phase_after(Phase::Running, event);
            &&& phase == Phase::Ended <==> event == SessionEvent::HeartbeatDue(
                Heartbeat::Reconnect,
            )
            &&& phase != Phase::Ended ==> phase == Phase::Running
            &&& action == SessionAction::Disconnect <==> phase == Phase::Ended
            &&& event == SessionEvent::HeartbeatDue(Heartbeat::Ping) ==> action
                == SessionAction::Ping
            &&& event == SessionEvent::CanvasDue ==> action == SessionAction::Query(2005)
            &&& event == SessionEvent::StatusDue ==> action == SessionAction::Query(1002)
            &&& (event is Done || event is Failed) ==> action == SessionAction::WaitForTimers
        }),
        phase_after(Phase::Ended, event) == (Phase::Ended, SessionAction::Stop),
{
}

/// A refused registration is tried again after a wait, for as long as it takes; a taken one is
/// followed by the questions for the attributes (1001), the status (1002) and the trays (2005),
/// and a question that fails holds none of them up.
pub proof fn a_refused_client_tries_again(fails: bool)
    ensures
        phase_after(Phase::Registering, SessionEvent::Failed) == (
            Phase::Refused,
            SessionAction::WaitToRegister,
        ),
        phase_after(Phase::Refused, SessionEvent::Done) == (
            Phase::Registering,
            SessionAction::Register,
        ),
        ({
            let event = if fails {
                SessionEvent::Failed
            } else {
                SessionEvent::Done
            };
            let first = phase_after(Phase::Registering, SessionEvent::Done);
            let second = phase_after(first.0, event);
            let third = phase_after(second.0, event);
            let last = phase_after(third.0, event);
            &&& first.1 == SessionAction::Query(1001)
            &&& second.1 == SessionAction::Query(1002)
            &&& third.1 == SessionAction::Query(2005)
            &&& last == (Phase::Running, SessionAction::WaitForTimers)
        }),
{
}

/// A message is taken for what its topic says, each of the three topics for one thing.
pub proof fn messages_are_told_apart_by_their_topic(topics: Topics, topic: Seq<char>)
    ensures
        topic == topics.register_response@ ==> route_of(topics, topic) == Route::RegisterResponse,
        topic != topics.register_response@ && topic == topics.response@ ==> route_of(topics, topic)
            == Route::Response,
        topic != topics.register_response@ && topic != topics.response@ && topic == topics.status@
            ==> route_of(topics, topic) == Route::Status,
        route_of(topics, topic) != Route::Other ==> topic == topics.register_response@ || topic
            == topics.response@ || topic == topics.status@,
{
}

/// A client is registered exactly where the printer says `ok`; any other word is the reason.
pub proof fn a_client_is_registered_by_ok_alone(outcome: RegisterOutcome, timeout: u64)
    ensures
        register_result(outcome, timeout) is Ok <==> (outcome matches RegisterOutcome::Answered(
            word,
        ) && word@ == "ok"@),
        outcome matches RegisterOutcome::Answered(word) ==> (register_result(
            outcome,
            timeout,
        ) matches Err(reason) ==> reason == word@),
{
}

/// What the printer says is shown where it reads; otherwise what was shown before stays.
pub proof fn what_does_not_read_changes_nothing(
    before: PrinterSnapshot,
    after: PrinterSnapshot,
    said: Value,
)
    ensures
        status_shown(before.status, after.status, said) && !read::status_reads(said) ==> after.status
            == before.status,
        status_shown(before.status, after.status, said) && read::status_reads(said)
            ==> after.status is Some && after.status->0.shows(said),
        canvas_shown(before.canvas, after.canvas, said) && !read::canvas_status_reads(said)
            ==> after.canvas == before.canvas,
        attributes_shown(before.attributes, after.attributes, said) && !read::attributes_read(said)
            ==> after.attributes == before.attributes,
        attributes_shown(before.attributes, after.attributes, said) && read::attributes_read(said)
            ==> after.attributes is Some && after.attributes->0.shows(said),
{
}

} // verus!
