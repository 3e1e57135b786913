//! Start requests: which way a target is started, and the answer.

use vstd::prelude::*;

use crate::app_config::RelayTarget;
use crate::ip::Ipv4Addr;
use crate::network_scanner;
use crate::network_scanner::{DeviceInfo, NetworkScanner};
use crate::relay::RelayState;
use crate::reply;
use crate::reply::Reply;
use crate::shelly;
use crate::shelly::{ShellyStartable, ShellyStep};
use crate::target_startable::Startable;
use crate::text;
use crate::text::{contains_text, join3};
use crate::wol;
use crate::wol::{WolStartable, WolStep};

verus! {

/// The ways to start a target.
#[derive(Debug)]
pub enum StarterType<'a> {
    /// Turn on a smart plug.
    Shelly(ShellyStartable<'a>),
    /// Send a magic packet.
    WakeOnLan(WolStartable<'a>),
}

/// A step of a start.
#[derive(Debug)]
pub enum StartStep {
    Shelly(ShellyStep),
    WakeOnLan(WolStep),
}

impl<'a> StarterType<'a> {
    /// What the way is called.
    pub open spec fn described(self) -> Seq<char> {
        match self {
            StarterType::Shelly(_) => "Shelly smart plug"@,
            StarterType::WakeOnLan(_) => "Wake-on-LAN"@,
        }
    }

    /// Tells what the way is called.
    pub fn description(&self) -> (r: &'static str)
        ensures
            r@ == self.described(),
    {
        match self {
            StarterType::Shelly(_) => "Shelly smart plug",
            StarterType::WakeOnLan(_) => "Wake-on-LAN",
        }
    }
}

impl<'a> Startable for StarterType<'a> {
    type Step = StartStep;

    open spec fn starts_with(&self, devices: Map<Ipv4Addr, DeviceInfo>, step: StartStep) -> bool {
        match *self {
            StarterType::Shelly(s) => {
                &&& step matches StartStep::Shelly(first)
                &&& s.starts_with(devices, first)
            },
            StarterType::WakeOnLan(w) => {
                &&& step matches StartStep::WakeOnLan(first)
                &&& w.starts_with(devices, first)
            },
        }
    }

    fn start(&self, scanner: &NetworkScanner) -> (step: StartStep) {
        match self {
            StarterType::Shelly(s) => StartStep::Shelly(s.start(scanner)),
            StarterType::WakeOnLan(w) => StartStep::WakeOnLan(w.start(scanner)),
        }
    }
}

/// A target can be started: it is woken, or a plug powers it.
pub open spec fn is_startable(target: RelayTarget) -> bool {
    match target {
        RelayTarget::Mac { shelly_power_mac, wol_enabled, .. } => wol_enabled
            || shelly_power_mac is Some,
        _ => false,
    }
}

/// The way to start a target on a network: Wake-on-LAN takes precedence over
/// the plug.
pub open spec fn is_starter_of(
    target: RelayTarget,
    network_base: Seq<char>,
    starter: StarterType,
) -> bool {
    match target {
        RelayTarget::Mac { mac, wol_enabled: true, .. } => {
            &&& starter matches StarterType::WakeOnLan(w)
            &&& w.mac@ == mac@
            &&& w.broadcast_addr@ == wol::broadcast(network_base)
        },
        RelayTarget::Mac { mac, shelly_power_mac: Some(plug), .. } => {
            &&& starter matches StarterType::Shelly(s)
            &&& s.mac@ == plug@
            &&& s.target_mac@ == mac@
        },
        _ => false,
    }
}

/// Finds the way to start a target, if there is one.
pub fn create_starter<'a>(target: &'a RelayTarget, scanner: &NetworkScanner) -> (r: Option<
    StarterType<'a>,
>)
    ensures
        match r {
            Some(starter) => is_starter_of(*target, scanner.base(), starter),
            None => !is_startable(*target),
        },
{
    match target {
        RelayTarget::Mac { mac, shelly_power_mac, wol_enabled, .. } => {
            if *wol_enabled {
                Some(
                    StarterType::WakeOnLan(WolStartable::new(mac.as_str(), scanner.network_base())),
                )
            } else {
                match shelly_power_mac {
                    Some(plug) => Some(
                        StarterType::Shelly(ShellyStartable::new(plug.as_str(), mac.as_str())),
                    ),
                    None => None,
                }
            }
        },
        _ => None,
    }
}

/// Why a target cannot be started.
pub open spec fn not_startable(target: RelayTarget) -> Seq<char> {
    match target {
        RelayTarget::Static(url) => "Static target '"@ + url@ + "' does not support remote start"@,
        RelayTarget::StaticManaged { url, .. } => "Static managed target '"@ + url@
            + "' does not support remote start"@,
        RelayTarget::Mac { .. } =>
            "MAC-based target does not have 'wol_enabled: true' or 'shelly_power_mac' configured for remote start"@,
    }
}

/// Tells why a target cannot be started.
fn reason(target: &RelayTarget) -> (r: String)
    ensures
        r@ == not_startable(*target),
{
    match target {
        RelayTarget::Static(url) => join3(
            "Static target '",
            url.as_str(),
            "' does not support remote start",
        ),
        RelayTarget::StaticManaged { url, .. } => join3(
            "Static managed target '",
            url.as_str(),
            "' does not support remote start",
        ),
        RelayTarget::Mac { .. } =>
            "MAC-based target does not have 'wol_enabled: true' or 'shelly_power_mac' configured for remote start".to_owned(),
    }
}

/// What is decided on a request to start a target.
#[derive(Debug)]
pub enum StartDecision<'a> {
    /// Answer at once.
    Answer(Reply),
    /// Start the target, then `answer_start`.
    Start(StarterType<'a>),
}

/// The decision on a request to start a target.
pub open spec fn is_start_decision(
    targets: Map<Seq<char>, RelayTarget>,
    network_base: Seq<char>,
    name: Seq<char>,
    d: StartDecision,
) -> bool {
    if !targets.contains_key(name) {
        &&& d matches StartDecision::Answer(r)
        &&& r.is_error(404, name, "Unknown target: '"@ + name + "'"@)
    } else if !is_startable(targets[name]) {
        &&& d matches StartDecision::Answer(r)
        &&& r.is_error(400, name, not_startable(targets[name]))
    } else {
        &&& d matches StartDecision::Start(starter)
        &&& is_starter_of(targets[name], network_base, starter)
    }
}

/// Decides on a request to start a target.
pub fn start_target_handler<'a>(
    target_name: &str,
    relay_state: &'a RelayState,
    scanner: &NetworkScanner,
) -> (r: StartDecision<'a>)
    ensures
        is_start_decision(relay_state.targets@, scanner.base(), target_name@, r),
{
    let target = match relay_state.targets.get(&target_name.to_owned()) {
        Some(t) => t,
        None => {
            return StartDecision::Answer(
                Reply::error(404, target_name, join3("Unknown target: '", target_name, "'")),
            );
        },
    };
    match create_starter(target, scanner) {
        Some(starter) => StartDecision::Start(starter),
        None => StartDecision::Answer(Reply::error(400, target_name, reason(target))),
    }
}

/// The answer to a request to start a target, once the start has ended: a
/// target whose plug is not on the network is reported as offline.
pub open spec fn is_start_answer(
    name: Seq<char>,
    description: Seq<char>,
    result: Result<(), String>,
    reply: Reply,
) -> bool {
    match result {
        Ok(_) => reply.is_success(
            200,
            name,
            description,
            "Target '"@ + name + "' has been started"@,
        ),
        Err(e) => if text::occurs(e@, "not found on network"@) {
            reply.is_failure(503, name, description, "device_offline"@, e@)
        } else {
            reply.is_failure(500, name, description, "start_failed"@, e@)
        },
    }
}

/// Answers a request to start a target, once the start has ended.
pub fn answer_start(
    target_name: &str,
    starter: &StarterType,
    result: Result<(), String>,
) -> (r: Reply)
    ensures
        is_start_answer(target_name@, starter.described(), result, r),
{
    match result {
        Ok(()) => Reply::success(
            200,
            target_name,
            starter.description(),
            join3("Target '", target_name, "' has been started"),
        ),
        Err(e) => {
            if contains_text(e.as_str(), "not found on network") {
                Reply::failure(503, target_name, starter.description(), "device_offline", e)
            } else {
                Reply::failure(500, target_name, starter.description(), "start_failed", e)
            }
        },
    }
}

// ---------------------------------------------------------------------------
// Laws
// ---------------------------------------------------------------------------
/// A target for which Wake-on-LAN is enabled is woken, whether or not a plug
/// powers it.
pub proof fn wake_on_lan_takes_precedence(
    target: RelayTarget,
    network_base: Seq<char>,
    starter: StarterType,
)
    requires
        target is Mac,
        target->wol_enabled,
        is_starter_of(target, network_base, starter),
    ensures
        starter is WakeOnLan,
{
}

/// Fixed URLs cannot be started.
pub proof fn fixed_urls_cannot_be_started(target: RelayTarget)
    requires
        target !is Mac,
    ensures
        !is_startable(target),
{
}

/// A target whose plug is not on the network, while the device is off, is
/// answered as unavailable.
pub proof fn absent_plug_is_answered_as_unavailable(
    starter: ShellyStartable,
    devices: Map<Ipv4Addr, DeviceInfo>,
    step: ShellyStep,
    name: Seq<char>,
    reply: Reply,
)
    requires
        !network_scanner::on_network(devices, starter.target_mac@),
        !network_scanner::on_network(devices, starter.mac@),
        starter.starts_with(devices, step),
        step is Done,
        is_start_answer(name, StarterType::Shelly(starter).described(), step->Done_0, reply),
    ensures
        reply.status == 503,
{
    let m = shelly::plug_not_found(starter.mac@);
    let needle = "not found on network"@;
    reveal_strlit("not found on network");
    reveal_strlit(" not found on network");
    let at = m.len() - needle.len();
    assert(m.subrange(at, at + needle.len()) == needle);
    assert(text::occurs_at(m, needle, at));
}

/// A target that is on the network already is answered as started.
pub proof fn running_target_is_answered_as_started(
    starter: StarterType,
    devices: Map<Ipv4Addr, DeviceInfo>,
    step: StartStep,
    mac: Seq<char>,
)
    requires
        match starter {
            StarterType::Shelly(s) => mac == s.target_mac@,
            StarterType::WakeOnLan(w) => mac == w.mac@,
        },
        network_scanner::on_network(devices, mac),
        starter.starts_with(devices, step),
    ensures
        match step {
            StartStep::Shelly(s) => s == ShellyStep::Done(Ok(())),
            StartStep::WakeOnLan(w) => w == WolStep::Done(Ok(())),
        },
{
}

/// A request to start a target is answered at once exactly where no target has
/// the name, or the target is no device that is woken or powered by a plug; the
/// answer says which.
pub proof fn start_is_refused_with_the_reason(
    name: &str,
    state: &'static RelayState,
    scanner: NetworkScanner,
    d: StartDecision<'static>,
)
    requires
        call_ensures(start_target_handler, (name, state, &scanner), d),
    ensures
        !state.targets@.contains_key(name@) ==> is_told(
            d,
            404,
            name@,
            "Unknown target: '"@ + name@ + "'"@,
        ),
        state.targets@.contains_key(name@) ==> match state.targets@[name@] {
            RelayTarget::Static(url) => is_told(
                d,
                400,
                name@,
                "Static target '"@ + url@ + "' does not support remote start"@,
            ),
            RelayTarget::StaticManaged { url, .. } => is_told(
                d,
                400,
                name@,
                "Static managed target '"@ + url@ + "' does not support remote start"@,
            ),
            RelayTarget::Mac { shelly_power_mac, wol_enabled, .. } => {
                &&& !wol_enabled && shelly_power_mac is None ==> is_told(
                    d,
                    400,
                    name@,
                    "MAC-based target does not have 'wol_enabled: true' or 'shelly_power_mac' configured for remote start"@,
                )
                &&& wol_enabled || shelly_power_mac is Some ==> d is Start
            },
        },
{
}

/// A request to start is answered with an error of this status and message.
pub open spec fn is_told(
    d: StartDecision,
    status: u16,
    target: Seq<char>,
    message: Seq<char>,
) -> bool {
    &&& d matches StartDecision::Answer(r)
    &&& r.status == status
    &&& r.challenge is None
    &&& r.body matches reply::Body::Error(e)
    &&& e.status@ == "error"@
    &&& e.target@ == target
    &&& e.message@ == message
}

/// A device that is woken is started by Wake-on-LAN on the network of the
/// scanner, another by the plug that powers it: each with its own addresses.
pub proof fn device_is_started_its_way(
    name: &str,
    state: &'static RelayState,
    scanner: NetworkScanner,
    d: StartDecision<'static>,
)
    requires
        call_ensures(start_target_handler, (name, state, &scanner), d),
        state.targets@.contains_key(name@),
        state.targets@[name@] is Mac,
    ensures
        state.targets@[name@]->wol_enabled ==> {
            &&& d matches StartDecision::Start(StarterType::WakeOnLan(w))
            &&& w.mac@ == state.targets@[name@]->mac@
            &&& w.broadcast_addr@ == scanner.base() + ".255:9"@
        },
        !state.targets@[name@]->wol_enabled && state.targets@[name@]->shelly_power_mac is Some ==> {
            &&& d matches StartDecision::Start(StarterType::Shelly(s))
            &&& s.mac@ == state.targets@[name@]->shelly_power_mac->0@
            &&& s.target_mac@ == state.targets@[name@]->mac@
        },
{
}

/// The same way is found for a target when it is asked for alone.
pub proof fn starter_is_found_for_a_target(
    target: &'static RelayTarget,
    scanner: NetworkScanner,
    starter: Option<StarterType<'static>>,
    description: &'static str,
)
    requires
        call_ensures(create_starter, (target, &scanner), starter),
        starter is Some ==> call_ensures(StarterType::description, (&starter->0,), description),
    ensures
        starter is Some <==> match *target {
            RelayTarget::Mac { wol_enabled, shelly_power_mac, .. } => wol_enabled
                || shelly_power_mac is Some,
            _ => false,
        },
        starter is Some ==> description@ == (if target->wol_enabled {
            "Wake-on-LAN"@
        } else {
            "Shelly smart plug"@
        }),
{
}

/// A start that succeeded is answered with 200; one that failed with 503 where
/// its message says that a device was not found on the network, else with 500.
/// The answer names the target, the way and the message.
pub proof fn start_is_answered_as_it_ended(
    name: &str,
    starter: StarterType<'static>,
    result: Result<(), String>,
    r: Reply,
    before: Seq<char>,
    after: Seq<char>,
)
    requires
        call_ensures(answer_start, (name, &starter, result), r),
    ensures
        ({
            let way = match starter {
                StarterType::Shelly(_) => "Shelly smart plug"@,
                StarterType::WakeOnLan(_) => "Wake-on-LAN"@,
            };
            &&& result is Ok ==> {
                &&& r.status == 200
                &&& r.body matches reply::Body::Success(b)
                &&& b.status@ == "success"@
                &&& b.target@ == name@
                &&& b.starter_type@ == way
                &&& b.message@ == "Target '"@ + name@ + "' has been started"@
            }
            &&& result is Err ==> {
                &&& r.status == 503 || r.status == 500
                &&& r.body matches reply::Body::Failure(b)
                &&& b.status@ == "error"@
                &&& b.target@ == name@
                &&& b.starter_type@ == way
                &&& b.error@ == (if r.status == 503 {
                    "device_offline"@
                } else {
                    "start_failed"@
                })
                &&& b.message@ == result->Err_0@
            }
            &&& result is Err && result->Err_0@ == before + "not found on network"@ + after
                ==> r.status == 503
            &&& r.status == 503 ==> result is Err && exists|at: int|
                {
                    &&& 0 <= at
                    &&& at + "not found on network"@.len() <= result->Err_0@.len()
                    &&& #[trigger] result->Err_0@.subrange(at, at + "not found on network"@.len())
                        == "not found on network"@
                }
        }),
{
    text::search_finds_what_is_there(before, "not found on network"@, after);
    if r.status == 503 {
        let m = result->Err_0@;
        let needle = "not found on network"@;
        let at = choose|at: int| text::occurs_at(m, needle, at);
        assert(m.subrange(at, at + needle.len()) == needle);
    }
}

/// A start takes the steps of its way.
pub proof fn start_takes_the_steps_of_its_way(
    starter: StarterType,
    devices: Map<Ipv4Addr, DeviceInfo>,
    step: StartStep,
)
    requires
        starter.starts_with(devices, step),
    ensures
        starter is Shelly <==> step is Shelly,
        starter matches StarterType::Shelly(s) ==> s.starts_with(devices, step->Shelly_0),
        starter matches StarterType::WakeOnLan(w) ==> w.starts_with(devices, step->WakeOnLan_0),
{
}

} // verus!
