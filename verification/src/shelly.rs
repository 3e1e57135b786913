//! Power control by Shelly Gen2 smart plugs over their local HTTP interface.

use vstd::prelude::*;

use crate::http_outcome;
use crate::http_outcome::{code_succeeds, HttpOutcome};
use crate::ip;
use crate::ip::Ipv4Addr;
use crate::network_scanner;
use crate::network_scanner::{DeviceInfo, NetworkScanner};
use crate::outside;
use crate::outside::status_text;
use crate::target_startable::Startable;
use crate::target_stoppable::Stoppable;
use crate::text::{join2, join3, join4};

verus! {

/// Seconds that a request to a plug may take.
pub const PLUG_TIMEOUT: u64 = 5;

/// Seconds that a plug stays off when it is power-cycled.
pub const POWER_CYCLE_PAUSE: u64 = 3;

/// The URL that reads the state of the plug at an address.
pub open spec fn status_url(plug: Ipv4Addr) -> Seq<char> {
    "http://"@ + ip::dotted(plug) + "/rpc/Switch.GetStatus?id=0"@
}

/// The URL that turns the plug at an address on or off.
pub open spec fn switch_url(plug: Ipv4Addr, on: bool) -> Seq<char> {
    "http://"@ + ip::dotted(plug) + (if on {
        "/rpc/Switch.Set?id=0&on=true"@
    } else {
        "/rpc/Switch.Set?id=0&on=false"@
    })
}

/// Writes the URL that reads the state of a plug.
fn write_status_url(plug: &Ipv4Addr) -> (r: String)
    ensures
        r@ == status_url(*plug),
{
    join3("http://", plug.to_text().as_str(), "/rpc/Switch.GetStatus?id=0")
}

/// Writes the URL that turns a plug on or off.
fn write_switch_url(plug: &Ipv4Addr, on: bool) -> (r: String)
    ensures
        r@ == switch_url(*plug, on),
{
    if on {
        join3("http://", plug.to_text().as_str(), "/rpc/Switch.Set?id=0&on=true")
    } else {
        join3("http://", plug.to_text().as_str(), "/rpc/Switch.Set?id=0&on=false")
    }
}

/// The message for a plug that is not on the network.
pub open spec fn plug_not_found(mac: Seq<char>) -> Seq<char> {
    "Shelly device with MAC "@ + mac + " not found on network"@
}

// ---------------------------------------------------------------------------
// Turning a plug on
// ---------------------------------------------------------------------------
/// What came of reading the state of a plug.
#[derive(Debug)]
pub enum PlugReading {
    /// An answer, and the state of the output where the body gives one.
    Answered { status: u16, output: Option<bool> },
    /// No answer.
    Failed,
}

impl PlugReading {
    /// The plug reports that it is on; whatever else came back counts as off.
    pub open spec fn reports_on(self) -> bool {
        &&& self matches PlugReading::Answered { status, output }
        &&& http_outcome::is_success(status)
        &&& output == Some(true)
    }
}

/// Starts a device by turning on the plug that powers it.
#[derive(Debug)]
pub struct ShellyStartable<'a> {
    /// MAC address of the plug.
    pub mac: &'a str,
    /// MAC address of the device that the plug powers.
    pub target_mac: &'a str,
}

/// A step of a start by smart plug.
#[derive(Debug)]
pub enum ShellyStep {
    /// Send a GET request that reads the state of the plug, then `after_status`.
    ReadStatus { url: String, timeout_secs: u64, plug: Ipv4Addr },
    /// Send a GET request that turns the plug off, then `after_off`.
    TurnOff { url: String, timeout_secs: u64, plug: Ipv4Addr },
    /// Wait, then `after_pause`.
    Pause { secs: u64, plug: Ipv4Addr },
    /// Send a GET request that turns the plug on, then `after_on`.
    TurnOn { url: String, timeout_secs: u64, plug: Ipv4Addr },
    /// The start has ended.
    Done(Result<(), String>),
}

impl ShellyStep {
    /// Read the state of the plug at an address.
    pub open spec fn reads(self, at: Ipv4Addr) -> bool {
        &&& self matches ShellyStep::ReadStatus { url, timeout_secs, plug }
        &&& url@ == status_url(at)
        &&& timeout_secs == PLUG_TIMEOUT
        &&& plug == at
    }

    /// Turn the plug at an address off.
    pub open spec fn turns_off(self, at: Ipv4Addr) -> bool {
        &&& self matches ShellyStep::TurnOff { url, timeout_secs, plug }
        &&& url@ == switch_url(at, false)
        &&& timeout_secs == PLUG_TIMEOUT
        &&& plug == at
    }

    /// Let the plug at an address stay off.
    pub open spec fn pauses(self, at: Ipv4Addr) -> bool {
        self == ShellyStep::Pause { secs: POWER_CYCLE_PAUSE, plug: at }
    }

    /// Turn the plug at an address on.
    pub open spec fn turns_on(self, at: Ipv4Addr) -> bool {
        &&& self matches ShellyStep::TurnOn { url, timeout_secs, plug }
        &&& url@ == switch_url(at, true)
        &&& timeout_secs == PLUG_TIMEOUT
        &&& plug == at
    }

    /// End with this error.
    pub open spec fn fails(self, message: Seq<char>) -> bool {
        &&& self matches ShellyStep::Done(Err(m))
        &&& m@ == message
    }
}

/// What follows a reading of the state of the plug: a plug that is on while
/// the device is not is turned off first.
pub open spec fn follows_status(plug: Ipv4Addr, reading: PlugReading, step: ShellyStep) -> bool {
    if reading.reports_on() {
        step.turns_off(plug)
    } else {
        step.turns_on(plug)
    }
}

/// What follows the request that turns the plug off.
pub open spec fn follows_off(plug: Ipv4Addr, outcome: HttpOutcome, step: ShellyStep) -> bool {
    match outcome {
        HttpOutcome::Answered(code) => if http_outcome::is_success(code) {
            step.pauses(plug)
        } else {
            step.fails("Failed to turn off Shelly device, status: "@ + outside::status_line(code))
        },
        HttpOutcome::Failed(e) => step.fails(
            "Failed to communicate with Shelly device while turning off: "@ + e@,
        ),
    }
}

/// How a start ends after the request that turns the plug on.
pub open spec fn follows_on(
    plug: Ipv4Addr,
    outcome: HttpOutcome,
    result: Result<(), String>,
) -> bool {
    match outcome {
        HttpOutcome::Answered(code) => if http_outcome::is_success(code) {
            result is Ok
        } else {
            &&& result matches Err(m)
            &&& m@ == "Shelly device responded with error status: "@ + outside::status_line(code)
        },
        HttpOutcome::Failed(e) => {
            &&& result matches Err(m)
            &&& m@ == "Failed to communicate with Shelly device at "@ + ip::dotted(plug) + ": "@
                + e@
        },
    }
}

/// The message for a plug that answers a request to turn off, before it is
/// turned on again, with an error.
pub fn off_refused(status: &str) -> (r: String)
    ensures
        r@ == "Failed to turn off Shelly device, status: "@ + status@,
{
    join2("Failed to turn off Shelly device, status: ", status)
}

/// The message for a plug that answers a request to turn on with an error.
pub fn on_refused(status: &str) -> (r: String)
    ensures
        r@ == "Shelly device responded with error status: "@ + status@,
{
    join2("Shelly device responded with error status: ", status)
}

impl<'a> ShellyStartable<'a> {
    /// A handle that starts a device by the plug that powers it.
    pub fn new(mac: &'a str, target_mac: &'a str) -> (r: Self)
        ensures
            r.mac@ == mac@,
            r.target_mac@ == target_mac@,
    {
        ShellyStartable { mac, target_mac }
    }

    /// Goes on after the state of the plug was read.
    pub fn after_status(&self, plug: Ipv4Addr, reading: PlugReading) -> (step: ShellyStep)
        ensures
            follows_status(plug, reading, step),
    {
        let on = match reading {
            PlugReading::Answered { status, output } => {
                code_succeeds(status) && matches!(output, Some(true))
            },
            PlugReading::Failed => false,
        };
        if on {
            ShellyStep::TurnOff {
                url: write_switch_url(&plug, false),
                timeout_secs: PLUG_TIMEOUT,
                plug,
            }
        } else {
            self.turn_on(plug)
        }
    }

    /// Goes on after the plug was told to turn off.
    pub fn after_off(&self, plug: Ipv4Addr, outcome: HttpOutcome) -> (step: ShellyStep)
        requires
            outcome.well_formed(),
        ensures
            follows_off(plug, outcome, step),
    {
        match outcome {
            HttpOutcome::Answered(code) => {
                if code_succeeds(code) {
                    ShellyStep::Pause { secs: POWER_CYCLE_PAUSE, plug }
                } else {
                    ShellyStep::Done(Err(off_refused(status_text(code).as_str())))
                }
            },
            HttpOutcome::Failed(e) => ShellyStep::Done(
                Err(
                    join2(
                        "Failed to communicate with Shelly device while turning off: ",
                        e.as_str(),
                    ),
                ),
            ),
        }
    }

    /// Goes on after the plug stayed off for a while.
    pub fn after_pause(&self, plug: Ipv4Addr) -> (step: ShellyStep)
        ensures
            step.turns_on(plug),
    {
        self.turn_on(plug)
    }

    /// Ends the start after the plug was told to turn on.
    pub fn after_on(&self, plug: Ipv4Addr, outcome: HttpOutcome) -> (r: Result<(), String>)
        requires
            outcome.well_formed(),
        ensures
            follows_on(plug, outcome, r),
    {
        match outcome {
            HttpOutcome::Answered(code) => {
                if code_succeeds(code) {
                    Ok(())
                } else {
                    Err(on_refused(status_text(code).as_str()))
                }
            },
            HttpOutcome::Failed(e) => Err(
                join4(
                    "Failed to communicate with Shelly device at ",
                    plug.to_text().as_str(),
                    ": ",
                    e.as_str(),
                ),
            ),
        }
    }

    fn turn_on(&self, plug: Ipv4Addr) -> (step: ShellyStep)
        ensures
            step.turns_on(plug),
    {
        ShellyStep::TurnOn { url: write_switch_url(&plug, true), timeout_secs: PLUG_TIMEOUT, plug }
    }
}

impl<'a> Startable for ShellyStartable<'a> {
    type Step = ShellyStep;

    open spec fn starts_with(&self, devices: Map<Ipv4Addr, DeviceInfo>, step: ShellyStep) -> bool {
        if network_scanner::on_network(devices, self.target_mac@) {
            step == ShellyStep::Done(Ok(()))
        } else if !network_scanner::on_network(devices, self.mac@) {
            step.fails(plug_not_found(self.mac@))
        } else {
            exists|plug: Ipv4Addr| #[trigger]
                network_scanner::is_address_of(devices, self.mac@, plug) && step.reads(plug)
        }
    }

    fn start(&self, scanner: &NetworkScanner) -> (step: ShellyStep) {
        if scanner.get_ip_by_mac(self.target_mac).is_some() {
            return ShellyStep::Done(Ok(()));
        }
        match scanner.get_ip_by_mac(self.mac) {
            None => ShellyStep::Done(
                Err(join3("Shelly device with MAC ", self.mac, " not found on network")),
            ),
            Some(plug) => ShellyStep::ReadStatus {
                url: write_status_url(&plug),
                timeout_secs: PLUG_TIMEOUT,
                plug,
            },
        }
    }
}

// ---------------------------------------------------------------------------
// Turning a plug off
// ---------------------------------------------------------------------------
/// Turns a plug off.
#[derive(Debug)]
pub struct ShellyPlugStoppable {
    /// MAC address of the plug.
    pub shelly_mac: String,
}

/// A step of turning a plug off.
#[derive(Debug)]
pub enum PlugOffStep {
    /// Send a GET request that turns the plug off, then `after_off`.
    TurnOff { url: String, timeout_secs: u64, plug: Ipv4Addr },
    /// The stop has ended.
    Done(Result<(), String>),
}

/// How turning a plug off ends after the request.
pub open spec fn ends_off(plug: Ipv4Addr, outcome: HttpOutcome, result: Result<(), String>) -> bool {
    match outcome {
        HttpOutcome::Answered(code) => if http_outcome::is_success(code) {
            result is Ok
        } else {
            &&& result matches Err(m)
            &&& m@ == "Shelly plug responded with error status: "@ + outside::status_line(code)
        },
        HttpOutcome::Failed(e) => {
            &&& result matches Err(m)
            &&& m@ == "Failed to communicate with Shelly plug at "@ + ip::dotted(plug) + ": "@ + e@
        },
    }
}

/// The message for a plug that answers a request to turn off with an error.
pub fn plug_refused(status: &str) -> (r: String)
    ensures
        r@ == "Shelly plug responded with error status: "@ + status@,
{
    join2("Shelly plug responded with error status: ", status)
}

impl ShellyPlugStoppable {
    /// A handle that turns off the plug with a MAC address.
    pub fn new(shelly_mac: String) -> (r: Self)
        ensures
            r.shelly_mac == shelly_mac,
    {
        ShellyPlugStoppable { shelly_mac }
    }

    /// Ends the stop after the plug was told to turn off.
    pub fn after_off(&self, plug: Ipv4Addr, outcome: HttpOutcome) -> (r: Result<(), String>)
        requires
            outcome.well_formed(),
        ensures
            ends_off(plug, outcome, r),
    {
        match outcome {
            HttpOutcome::Answered(code) => {
                if code_succeeds(code) {
                    Ok(())
                } else {
                    Err(plug_refused(status_text(code).as_str()))
                }
            },
            HttpOutcome::Failed(e) => Err(
                join4(
                    "Failed to communicate with Shelly plug at ",
                    plug.to_text().as_str(),
                    ": ",
                    e.as_str(),
                ),
            ),
        }
    }
}

impl Stoppable for ShellyPlugStoppable {
    type Step = PlugOffStep;

    open spec fn stops_with(
        &self,
        devices: Map<Ipv4Addr, DeviceInfo>,
        now: u64,
        step: PlugOffStep,
    ) -> bool {
        if !network_scanner::on_network(devices, self.shelly_mac@) {
            &&& step matches PlugOffStep::Done(Err(m))
            &&& m@ == plug_not_found(self.shelly_mac@)
        } else {
            &&& step matches PlugOffStep::TurnOff { url, timeout_secs, plug }
            &&& network_scanner::is_address_of(devices, self.shelly_mac@, plug)
            &&& url@ == switch_url(plug, false)
            &&& timeout_secs == PLUG_TIMEOUT
        }
    }

    fn stop(&self, scanner: &NetworkScanner, now: u64) -> (step: PlugOffStep) {
        match scanner.get_ip_by_mac(self.shelly_mac.as_str()) {
            None => PlugOffStep::Done(
                Err(
                    join3(
                        "Shelly device with MAC ",
                        self.shelly_mac.as_str(),
                        " not found on network",
                    ),
                ),
            ),
            Some(plug) => PlugOffStep::TurnOff {
                url: write_switch_url(&plug, false),
                timeout_secs: PLUG_TIMEOUT,
                plug,
            },
        }
    }
}

// ---------------------------------------------------------------------------
// Laws
// ---------------------------------------------------------------------------
/// A device that is on the network is left alone: its plug is not even asked.
pub proof fn plug_of_a_running_device_is_left_alone(
    starter: ShellyStartable,
    devices: Map<Ipv4Addr, DeviceInfo>,
    step: ShellyStep,
)
    requires
        network_scanner::on_network(devices, starter.target_mac@),
        starter.starts_with(devices, step),
    ensures
        step == ShellyStep::Done(Ok(())),
{
}

/// A plug that is on while its device is off is power-cycled: it is turned
/// off, stays off for three seconds and is turned on again.
pub proof fn plug_that_is_on_is_power_cycled(
    plug: Ipv4Addr,
    reading: PlugReading,
    first: ShellyStep,
    outcome: HttpOutcome,
    second: ShellyStep,
)
    requires
        reading.reports_on(),
        follows_status(plug, reading, first),
        outcome.succeeded(),
        follows_off(plug, outcome, second),
    ensures
        first.turns_off(plug),
        second == (ShellyStep::Pause { secs: 3, plug }),
{
}

/// A plug is turned off only when it reported that it is on; else it is turned
/// on at once.
pub proof fn plug_is_turned_off_only_when_it_is_on(
    plug: Ipv4Addr,
    reading: PlugReading,
    step: ShellyStep,
)
    requires
        follows_status(plug, reading, step),
    ensures
        step is TurnOff <==> reading.reports_on(),
        step is TurnOn <==> !reading.reports_on(),
{
}

/// A start succeeds exactly when the plug acknowledged that it turned on.
pub proof fn start_succeeds_when_the_plug_turned_on(
    plug: Ipv4Addr,
    outcome: HttpOutcome,
    result: Result<(), String>,
)
    requires
        follows_on(plug, outcome, result),
    ensures
        result is Ok <==> outcome.succeeded(),
{
}

/// How far a start by smart plug is from its end.
pub open spec fn steps_left(step: ShellyStep) -> nat {
    match step {
        ShellyStep::ReadStatus { .. } => 4,
        ShellyStep::TurnOff { .. } => 3,
        ShellyStep::Pause { .. } => 2,
        ShellyStep::TurnOn { .. } => 1,
        ShellyStep::Done(_) => 0,
    }
}

/// One step of a start by smart plug follows another.
pub open spec fn follows(
    before: ShellyStep,
    reading: PlugReading,
    outcome: HttpOutcome,
    after: ShellyStep,
) -> bool {
    match before {
        ShellyStep::ReadStatus { plug, .. } => follows_status(plug, reading, after),
        ShellyStep::TurnOff { plug, .. } => follows_off(plug, outcome, after),
        ShellyStep::Pause { plug, .. } => after.turns_on(plug),
        ShellyStep::TurnOn { plug, .. } => {
            &&& after matches ShellyStep::Done(result)
            &&& follows_on(plug, outcome, result)
        },
        ShellyStep::Done(_) => false,
    }
}

/// A start by smart plug only moves forward, whatever the plug answers: it
/// reads the plug, turns it off, pauses and turns it on in this order, each
/// at most once, and ends.
pub proof fn start_by_plug_only_moves_forward(
    before: ShellyStep,
    reading: PlugReading,
    outcome: HttpOutcome,
    after: ShellyStep,
)
    requires
        follows(before, reading, outcome, after),
    ensures
        steps_left(after) < steps_left(before),
{
}

/// A start asks the plug for its state exactly when the device is off the
/// network and the plug on it: at an address of the plug, for five seconds.
pub proof fn start_asks_the_plug(
    starter: ShellyStartable,
    devices: Map<Ipv4Addr, DeviceInfo>,
    step: ShellyStep,
)
    requires
        starter.starts_with(devices, step),
    ensures
        network_scanner::on_network(devices, starter.target_mac@) ==> step is Done
            && step->Done_0 is Ok,
        !network_scanner::on_network(devices, starter.target_mac@) && !network_scanner::on_network(
            devices,
            starter.mac@,
        ) ==> {
            &&& step matches ShellyStep::Done(Err(m))
            &&& m@ == "Shelly device with MAC "@ + starter.mac@ + " not found on network"@
        },
        !network_scanner::on_network(devices, starter.target_mac@) && network_scanner::on_network(
            devices,
            starter.mac@,
        ) ==> {
            &&& step matches ShellyStep::ReadStatus { url, timeout_secs, plug }
            &&& network_scanner::is_address_of(devices, starter.mac@, plug)
            &&& url@ == "http://"@ + ip::dotted(plug) + "/rpc/Switch.GetStatus?id=0"@
            &&& timeout_secs == 5
        },
{
}

/// The request that turns a plug on.
pub open spec fn asks_on(step: ShellyStep, at: Ipv4Addr) -> bool {
    &&& step matches ShellyStep::TurnOn { url, timeout_secs, plug }
    &&& url@ == "http://"@ + ip::dotted(at) + "/rpc/Switch.Set?id=0&on=true"@
    &&& timeout_secs == 5
    &&& plug == at
}

/// A plug is told to turn off exactly when its answer is a success that says
/// that it is on; after any other answer, or none, it is told to turn on.
pub proof fn answer_of_the_plug_decides(
    starter: ShellyStartable,
    plug: Ipv4Addr,
    reading: PlugReading,
    step: ShellyStep,
)
    requires
        call_ensures(ShellyStartable::after_status, (&starter, plug, reading), step),
    ensures
        ({
            let on = match reading {
                PlugReading::Answered { status, output } => 200 <= status && status <= 299
                    && output == Some(true),
                PlugReading::Failed => false,
            };
            &&& on ==> {
                &&& step matches ShellyStep::TurnOff { url, timeout_secs, plug: at }
                &&& url@ == "http://"@ + ip::dotted(plug) + "/rpc/Switch.Set?id=0&on=false"@
                &&& timeout_secs == 5
                &&& at == plug
            }
            &&& !on ==> asks_on(step, plug)
        }),
{
}

/// A plug that turned off stays off for three seconds and is then told to turn
/// on; one that did not ends the start with the reason.
pub proof fn plug_that_turned_off_is_turned_on_again(
    starter: ShellyStartable,
    plug: Ipv4Addr,
    outcome: HttpOutcome,
    step: ShellyStep,
    next: ShellyStep,
)
    requires
        call_ensures(ShellyStartable::after_off, (&starter, plug, outcome), step),
        call_ensures(ShellyStartable::after_pause, (&starter, plug), next),
    ensures
        match outcome {
            HttpOutcome::Answered(code) => if 200 <= code && code <= 299 {
                step == (ShellyStep::Pause { secs: 3, plug })
            } else {
                &&& step matches ShellyStep::Done(Err(m))
                &&& m@ == "Failed to turn off Shelly device, status: "@ + outside::status_line(code)
            },
            HttpOutcome::Failed(e) => {
                &&& step matches ShellyStep::Done(Err(m))
                &&& m@ == "Failed to communicate with Shelly device while turning off: "@ + e@
            },
        },
        asks_on(next, plug),
{
}

/// A start succeeds exactly when the plug answers the request to turn on with
/// success; else it fails with the reason.
pub proof fn start_ends_with_the_answer_to_turn_on(
    starter: ShellyStartable,
    plug: Ipv4Addr,
    outcome: HttpOutcome,
    result: Result<(), String>,
)
    requires
        call_ensures(ShellyStartable::after_on, (&starter, plug, outcome), result),
    ensures
        match outcome {
            HttpOutcome::Answered(code) => if 200 <= code && code <= 299 {
                result is Ok
            } else {
                &&& result matches Err(m)
                &&& m@ == "Shelly device responded with error status: "@ + outside::status_line(
                    code,
                )
            },
            HttpOutcome::Failed(e) => {
                &&& result matches Err(m)
                &&& m@ == "Failed to communicate with Shelly device at "@ + ip::dotted(plug)
                    + ": "@ + e@
            },
        },
{
}

/// A plug is turned off by a request to an address that it has, for five
/// seconds; a plug that is not on the network is reported.
pub proof fn plug_is_turned_off_where_it_is(
    stopper: ShellyPlugStoppable,
    devices: Map<Ipv4Addr, DeviceInfo>,
    now: u64,
    step: PlugOffStep,
)
    requires
        stopper.stops_with(devices, now, step),
    ensures
        network_scanner::on_network(devices, stopper.shelly_mac@) ==> {
            &&& step matches PlugOffStep::TurnOff { url, timeout_secs, plug }
            &&& network_scanner::is_address_of(devices, stopper.shelly_mac@, plug)
            &&& url@ == "http://"@ + ip::dotted(plug) + "/rpc/Switch.Set?id=0&on=false"@
            &&& timeout_secs == 5
        },
        !network_scanner::on_network(devices, stopper.shelly_mac@) ==> {
            &&& step matches PlugOffStep::Done(Err(m))
            &&& m@ == "Shelly device with MAC "@ + stopper.shelly_mac@ + " not found on network"@
        },
{
}

/// Turning a plug off succeeds exactly when the plug answers with success; else
/// it fails with the reason.
pub proof fn stop_ends_with_the_answer_to_turn_off(
    stopper: ShellyPlugStoppable,
    plug: Ipv4Addr,
    outcome: HttpOutcome,
    result: Result<(), String>,
)
    requires
        call_ensures(ShellyPlugStoppable::after_off, (&stopper, plug, outcome), result),
    ensures
        match outcome {
            HttpOutcome::Answered(code) => if 200 <= code && code <= 299 {
                result is Ok
            } else {
                &&& result matches Err(m)
                &&& m@ == "Shelly plug responded with error status: "@ + outside::status_line(code)
            },
            HttpOutcome::Failed(e) => {
                &&& result matches Err(m)
                &&& m@ == "Failed to communicate with Shelly plug at "@ + ip::dotted(plug) + ": "@
                    + e@
            },
        },
{
}

/// The handles are of the plug and the device that they are made for.
pub proof fn handles_keep_their_addresses(
    mac: &'static str,
    target_mac: &'static str,
    starter: ShellyStartable<'static>,
    shelly_mac: String,
    stopper: ShellyPlugStoppable,
)
    requires
        call_ensures(ShellyStartable::new, (mac, target_mac), starter),
        call_ensures(ShellyPlugStoppable::new, (shelly_mac,), stopper),
    ensures
        starter.mac@ == mac@,
        starter.target_mac@ == target_mac@,
        stopper.shelly_mac@ == shelly_mac@,
{
}

} // verus!
