//! Directed UDP discovery. A broadcast would not leave a Docker bridge network, but a unicast
//! probe to the printer's own address does and still returns its serial number.

use vstd::prelude::*;

verus! {

pub const DISCOVERY_PORT: u16 = 52700;

/// The datagram that asks a printer who it is.
pub const REQUEST: &'static str = "{\"id\":0,\"method\":7000}";

#[derive(Debug, PartialEq, Eq)]
pub struct DiscoveryInfo {
    pub host_name: String,
    pub machine_model: String,
    pub sn: String,
    pub token_status: i64,
    pub lan_status: i64,
}

impl Clone for DiscoveryInfo {
    fn clone(&self) -> (r: DiscoveryInfo)
        ensures
            r == *self,
    {
        DiscoveryInfo {
            host_name: self.host_name.clone(),
            machine_model: self.machine_model.clone(),
            sn: self.sn.clone(),
            token_status: self.token_status,
            lan_status: self.lan_status,
        }
    }
}

impl DiscoveryInfo {
    /// Local MQTT control only works in LAN Only Mode.
    pub fn lan_only(&self) -> (r: bool)
        ensures
            r == (self.lan_status == 1),
    {
        self.lan_status == 1
    }

    /// When set, the access code replaces the default MQTT password.
    pub fn access_code_set(&self) -> (r: bool)
        ensures
            r == (self.token_status == 1),
    {
        self.token_status == 1
    }
}

/// How far the probing has come: which attempt runs.
#[derive(Debug, Clone, Copy, PartialEq, Eq, Structural)]
pub struct Probing {
    pub attempts: u32,
    pub attempt: u32,
}

#[derive(Debug, PartialEq, Eq)]
pub enum ProbeEvent {
    /// The attempt's time is over.
    Deadline,
    /// A datagram came. `info` is what it says when it reads as a reply.
    Received { from_target: bool, info: Option<DiscoveryInfo> },
}

#[derive(Debug, PartialEq, Eq)]
pub enum ProbeAction {
    /// Send the request, and wait for the length of an attempt.
    Send,
    /// Wait on, within the same attempt.
    Wait,
    Found(DiscoveryInfo),
    /// No reply after that many attempts.
    GiveUp,
}

impl Probing {
    pub open spec fn step(self, event: ProbeEvent) -> (Probing, ProbeAction) {
        match event {
            ProbeEvent::Deadline => if self.attempt < self.attempts {
                (
                    Probing { attempts: self.attempts, attempt: (self.attempt + 1) as u32 },
                    ProbeAction::Send,
                )
            } else {
                (self, ProbeAction::GiveUp)
            },
            ProbeEvent::Received { from_target, info } => match info {
                Some(info) if from_target => (self, ProbeAction::Found(info)),
                _ => (self, ProbeAction::Wait),
            },
        }
    }
}

/// The first thing to do with so many attempts.
pub fn start(attempts: u32) -> (r: (Probing, ProbeAction))
    ensures
        r == if attempts == 0 {
            (Probing { attempts, attempt: 0 }, ProbeAction::GiveUp)
        } else {
            (Probing { attempts, attempt: 1 }, ProbeAction::Send)
        },
{
    if attempts == 0 {
        (Probing { attempts, attempt: 0 }, ProbeAction::GiveUp)
    } else {
        (Probing { attempts, attempt: 1 }, ProbeAction::Send)
    }
}

/// Replies from elsewhere and replies that do not read are passed over.
pub fn discover_at(probing: Probing, event: ProbeEvent) -> (r: (Probing, ProbeAction))
    ensures
        r == probing.step(event),
{
    match event {
        ProbeEvent::Deadline => {
            if probing.attempt < probing.attempts {
                (
                    Probing { attempts: probing.attempts, attempt: probing.attempt + 1 },
                    ProbeAction::Send,
                )
            } else {
                (probing, ProbeAction::GiveUp)
            }
        },
        ProbeEvent::Received { from_target, info } => match info {
            Some(info) => {
                if from_target {
                    (probing, ProbeAction::Found(info))
                } else {
                    (probing, ProbeAction::Wait)
                }
            },
            None => (probing, ProbeAction::Wait),
        },
    }
}

/// A printer is found where the wanted one answers with what it is, in any attempt. One attempt
/// follows the other, and the last one that goes by ends the search.
pub proof fn probing_asks_so_many_times(probing: Probing, event: ProbeEvent)
    requires
        probing.attempt <= probing.attempts,
    ensures
        ({
            let (after, action) = probing.step(event);
            &&& after.attempts == probing.attempts
            &&& probing.attempt <= after.attempt <= probing.attempts
            &&& event is Deadline && probing.attempt < probing.attempts ==> after.attempt
                == probing.attempt + 1 && action is Send
            &&& event is Deadline && probing.attempt == probing.attempts ==> action is GiveUp
            &&& !(event is Deadline) ==> after == probing && !(action is Send) && !(action is GiveUp)
            &&& action is Found ==> event is Received
        }),
        event matches ProbeEvent::Received { from_target, info } ==> (probing.step(event).1 is Found
            <==> from_target && info is Some),
{
}

} // verus!
