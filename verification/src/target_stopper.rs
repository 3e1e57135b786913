//! Stopping devices: over SSH, by a request to the device, by turning off the
//! plug that powers it, and by a sequence of these.

use vstd::prelude::*;

use crate::app_config::{copy_text, RelayTarget, SshShutdownConfig, TargetOs};
use crate::http_outcome;
use crate::http_outcome::{code_succeeds, HttpOutcome};
use crate::ip;
use crate::ip::Ipv4Addr;
use crate::network_scanner;
use crate::network_scanner::{DeviceInfo, NetworkScanner};
use crate::outside;
use crate::outside::{status_text, utf8_lossy};
use crate::relay::RelayState;
use crate::reply;
use crate::reply::Reply;
use crate::shelly::ShellyPlugStoppable;
use crate::target_stoppable::Stoppable;
use crate::text;
use crate::text::{
    chars_of, join2, join3, join4, string_of, trim_of, trim_start_of, write_decimal, write_signed,
    CharClass,
};

verus! {

// ---------------------------------------------------------------------------
// SSH
// ---------------------------------------------------------------------------
/// Shuts a host down by a command over SSH, with a key or with a password.
#[derive(Debug)]
pub struct SshStoppable {
    pub host: String,
    pub port: u16,
    pub username: String,
    pub key_file: Option<String>,
    pub password: Option<String>,
    pub command: String,
}

/// A command line to run, and the variable to set in its environment.
#[derive(Debug)]
pub struct SshCommand {
    pub program: String,
    pub args: Vec<String>,
    /// Name and value of the variable, where there is one.
    pub env: Option<(String, String)>,
}

/// What came of running a command.
#[derive(Debug)]
pub enum SshOutcome {
    /// It could not be run, for this reason.
    NotRun(String),
    /// It ended with this exit code, where it has one, and wrote this to its
    /// error output.
    Exited { code: Option<i32>, stderr: Vec<u8> },
}

/// The message for a command that failed: its exit code, or -1 where it has
/// none, and what it wrote.
pub open spec fn exit_text(code: Option<i32>, written: Seq<char>) -> Seq<char> {
    "SSH command exited with "@ + text::signed_decimal(
        match code {
            Some(c) => c as int,
            None => -1,
        },
    ) + ": "@ + text::trim(written, CharClass::Whitespace)
}

/// Writes the message for a command that failed.
pub fn exit_message(code: Option<i32>, written: &str) -> (r: String)
    ensures
        r@ == exit_text(code, written@),
{
    let number: i32 = match code {
        Some(c) => c,
        None => -1,
    };
    let trimmed = trim_of(&chars_of(written), &CharClass::Whitespace);
    join4(
        "SSH command exited with ",
        write_signed(number).as_str(),
        ": ",
        string_of(&trimmed).as_str(),
    )
}

/// Texts as character sequences.
pub open spec fn texts(v: Seq<String>) -> Seq<Seq<char>> {
    v.map_values(|s: String| s@)
}

/// The options that do not depend on the configuration.
pub open spec fn common_options() -> Seq<Seq<char>> {
    seq![
        "-o"@,
        "StrictHostKeyChecking=no"@,
        "-o"@,
        "UserKnownHostsFile=/dev/null"@,
        "-o"@,
        "ConnectTimeout=5"@,
    ]
}

impl SshStoppable {
    /// A host configured like this is shut down at this address.
    pub open spec fn is_configured(self, host: Seq<char>, config: SshShutdownConfig) -> bool {
        &&& self.host@ == host
        &&& self.port == config.port
        &&& self.username@ == config.username@
        &&& self.key_file == config.key_file
        &&& self.password == config.password
        &&& self.command@ == match config.command {
            Some(c) => c@,
            None => config.os.shutdown_command(),
        }
    }

    /// What stands before the options: with a password, the client is run by
    /// `sshpass`.
    pub open spec fn prefix(self) -> Seq<Seq<char>> {
        if self.password is Some {
            seq!["-e"@, "ssh"@]
        } else {
            Seq::empty()
        }
    }

    /// The options that choose how to authenticate.
    pub open spec fn auth_options(self) -> Seq<Seq<char>> {
        if self.password is Some {
            seq!["-o"@, "BatchMode=no"@, "-o"@, "PubkeyAuthentication=no"@]
        } else {
            seq!["-o"@, "BatchMode=yes"@]
        }
    }

    /// The option that names the key file; a password takes its place.
    pub open spec fn key_options(self) -> Seq<Seq<char>> {
        match self.key_file {
            Some(k) if self.password is None => seq!["-i"@, k@],
            _ => Seq::empty(),
        }
    }

    /// All the arguments, in order.
    pub open spec fn arguments(self) -> Seq<Seq<char>> {
        self.prefix() + common_options() + self.auth_options() + seq![
            "-p"@,
            text::decimal(self.port as nat),
        ] + self.key_options() + seq![self.username@ + "@"@ + self.host@, self.command@]
    }

    /// The command line that shuts the host down.
    pub open spec fn is_command(self, c: SshCommand) -> bool {
        &&& c.program@ == (if self.password is Some {
            "sshpass"@
        } else {
            "ssh"@
        })
        &&& texts(c.args@) == self.arguments()
        &&& match self.password {
            Some(p) => {
                &&& c.env matches Some((name, value))
                &&& name@ == "SSHPASS"@
                &&& value@ == p@
            },
            None => c.env is None,
        }
    }

    /// How a shutdown ends after the command: a host that closes the
    /// connection as it shuts down (exit code 255) counts as success.
    pub open spec fn ends_with(self, outcome: SshOutcome, result: Result<(), String>) -> bool {
        match outcome {
            SshOutcome::NotRun(e) => {
                &&& result matches Err(m)
                &&& m@ == (if self.password is Some {
                    "Failed to execute sshpass/ssh command (is sshpass installed?): "@
                } else {
                    "Failed to execute ssh command: "@
                }) + e@
            },
            SshOutcome::Exited { code, stderr } => if code == Some(0i32) || code == Some(255i32) {
                result is Ok
            } else {
                &&& result matches Err(m)
                &&& m@ == exit_text(code, outside::lossy_text(stderr@))
            },
        }
    }

    /// A handle that shuts down the host at an address.
    pub fn from_config(host: String, config: &SshShutdownConfig) -> (r: Self)
        ensures
            r.is_configured(host@, *config),
    {
        let command = match &config.command {
            Some(c) => c.clone(),
            None => config.os.default_shutdown_command().to_owned(),
        };
        SshStoppable {
            host,
            port: config.port,
            username: config.username.clone(),
            key_file: copy_text(&config.key_file),
            password: copy_text(&config.password),
            command,
        }
    }

    /// Ends the shutdown with what came of the command.
    pub fn finish(&self, outcome: SshOutcome) -> (r: Result<(), String>)
        ensures
            self.ends_with(outcome, r),
    {
        match outcome {
            SshOutcome::NotRun(e) => {
                if self.password.is_some() {
                    Err(
                        join2(
                            "Failed to execute sshpass/ssh command (is sshpass installed?): ",
                            e.as_str(),
                        ),
                    )
                } else {
                    Err(join2("Failed to execute ssh command: ", e.as_str()))
                }
            },
            SshOutcome::Exited { code, stderr } => {
                if let Some(c) = code {
                    if c == 0 || c == 255 {
                        return Ok(());
                    }
                }
                Err(exit_message(code, utf8_lossy(stderr.as_slice()).as_str()))
            },
        }
    }
}

/// Adds an argument.
fn push_arg(args: &mut Vec<String>, arg: &str)
    ensures
        texts(final(args)@) == texts(old(args)@).push(arg@),
{
    args.push(arg.to_owned());
    proof {
        assert(texts(args@) == texts(old(args)@).push(arg@));
    }
}

/// Adds two arguments.
fn push_args(args: &mut Vec<String>, first: &str, second: &str)
    ensures
        texts(final(args)@) == texts(old(args)@) + seq![first@, second@],
{
    push_arg(args, first);
    push_arg(args, second);
    proof {
        assert(texts(old(args)@).push(first@).push(second@) == texts(old(args)@) + seq![
            first@,
            second@,
        ]);
    }
}

impl Stoppable for SshStoppable {
    type Step = SshCommand;

    open spec fn stops_with(
        &self,
        devices: Map<Ipv4Addr, DeviceInfo>,
        now: u64,
        step: SshCommand,
    ) -> bool {
        self.is_command(step)
    }

    fn stop(&self, scanner: &NetworkScanner, now: u64) -> (step: SshCommand) {
        let mut args: Vec<String> = Vec::new();
        proof {
            assert(texts(args@) == Seq::<Seq<char>>::empty());
        }
        if self.password.is_some() {
            push_args(&mut args, "-e", "ssh");
        }
        proof {
            assert(texts(args@) == self.prefix());
        }
        push_args(&mut args, "-o", "StrictHostKeyChecking=no");
        push_args(&mut args, "-o", "UserKnownHostsFile=/dev/null");
        push_args(&mut args, "-o", "ConnectTimeout=5");
        proof {
            assert(texts(args@) == self.prefix() + common_options());
        }
        if self.password.is_some() {
            push_args(&mut args, "-o", "BatchMode=no");
            push_args(&mut args, "-o", "PubkeyAuthentication=no");
        } else {
            push_args(&mut args, "-o", "BatchMode=yes");
        }
        proof {
            assert(texts(args@) == self.prefix() + common_options() + self.auth_options());
        }
        push_args(&mut args, "-p", write_decimal(self.port as u64).as_str());
        match &self.key_file {
            Some(k) => {
                if self.password.is_none() {
                    push_args(&mut args, "-i", k.as_str());
                }
            },
            None => {},
        }
        proof {
            assert(texts(args@) == self.prefix() + common_options() + self.auth_options() + seq![
                "-p"@,
                text::decimal(self.port as nat),
            ] + self.key_options());
        }
        let at = join3(self.username.as_str(), "@", self.host.as_str());
        push_args(&mut args, at.as_str(), self.command.as_str());
        match &self.password {
            Some(p) => SshCommand {
                program: "sshpass".to_owned(),
                args,
                env: Some(("SSHPASS".to_owned(), p.clone())),
            },
            None => SshCommand { program: "ssh".to_owned(), args, env: None },
        }
    }
}

// ---------------------------------------------------------------------------
// Shutdown requests
// ---------------------------------------------------------------------------
/// Seconds that a shutdown request may take.
pub const SHUTDOWN_TIMEOUT: u64 = 10;

/// Shuts a device down by posting a request to it.
#[derive(Debug)]
pub struct RestApiStoppable {
    pub url: String,
}

/// A POST request to send.
#[derive(Debug)]
pub struct ShutdownRequest {
    pub url: String,
    pub timeout_secs: u64,
}

/// The URL to which a shutdown request is posted.
pub open spec fn shutdown_url(host: Seq<char>, port: u16, api_path: Seq<char>) -> Seq<char> {
    "http://"@ + host + ":"@ + text::decimal(port as nat) + "/"@ + text::trim_start(
        api_path,
        CharClass::Only('/'),
    )
}

/// The message for a device that answers a shutdown request with an error.
pub fn shutdown_refused(status: &str) -> (r: String)
    ensures
        r@ == "Shutdown API responded with status: "@ + status@,
{
    join2("Shutdown API responded with status: ", status)
}

impl RestApiStoppable {
    /// How a shutdown ends after the request.
    pub open spec fn ends_with(self, outcome: HttpOutcome, result: Result<(), String>) -> bool {
        match outcome {
            HttpOutcome::Answered(code) => if http_outcome::is_success(code) {
                result is Ok
            } else {
                &&& result matches Err(m)
                &&& m@ == "Shutdown API responded with status: "@ + outside::status_line(code)
            },
            HttpOutcome::Failed(e) => {
                &&& result matches Err(m)
                &&& m@ == "Failed to send shutdown request to "@ + self.url@ + ": "@ + e@
            },
        }
    }

    /// A handle that posts to a path of a service.
    pub fn new(host: &str, port: u16, api_path: &str) -> (r: Self)
        ensures
            r.url@ == shutdown_url(host@, port, api_path@),
    {
        let path = string_of(&trim_start_of(&chars_of(api_path), &CharClass::Only('/')));
        let mut url = join4("http://", host, ":", write_decimal(port as u64).as_str());
        url.append("/");
        url.append(path.as_str());
        RestApiStoppable { url }
    }

    /// Ends the shutdown with what came of the request.
    pub fn finish(&self, outcome: HttpOutcome) -> (r: Result<(), String>)
        requires
            outcome.well_formed(),
        ensures
            self.ends_with(outcome, r),
    {
        match outcome {
            HttpOutcome::Answered(code) => {
                if code_succeeds(code) {
                    Ok(())
                } else {
                    Err(shutdown_refused(status_text(code).as_str()))
                }
            },
            HttpOutcome::Failed(e) => Err(
                join4(
                    "Failed to send shutdown request to ",
                    self.url.as_str(),
                    ": ",
                    e.as_str(),
                ),
            ),
        }
    }
}

impl Stoppable for RestApiStoppable {
    type Step = ShutdownRequest;

    open spec fn stops_with(
        &self,
        devices: Map<Ipv4Addr, DeviceInfo>,
        now: u64,
        step: ShutdownRequest,
    ) -> bool {
        step.url@ == self.url@ && step.timeout_secs == SHUTDOWN_TIMEOUT
    }

    fn stop(&self, scanner: &NetworkScanner, now: u64) -> (step: ShutdownRequest) {
        ShutdownRequest { url: self.url.clone(), timeout_secs: SHUTDOWN_TIMEOUT }
    }
}

// ---------------------------------------------------------------------------
// The whole sequence
// ---------------------------------------------------------------------------
/// Nanoseconds for which a device may take to go offline: five minutes.
pub const OFFLINE_TIMEOUT: u64 = 300_000_000_000;

/// Seconds between two looks at whether a device is offline.
pub const OFFLINE_INTERVAL: u64 = 10;

/// Stops a device by a sequence: a graceful shutdown (over SSH, or by a request
/// if SSH is not configured), then a wait until the device is offline, then the
/// plug is turned off. Only what is configured runs, and an error in one part
/// does not keep the next from running. A plug alone is turned off at once: no
/// graceful shutdown is under way that would be worth a wait.
#[derive(Debug)]
pub struct CompositeStoppable {
    pub target_name: String,
    /// MAC address of the device.
    pub target_mac: String,
    /// Port of its service.
    pub target_port: u16,
    /// MAC address of the plug to turn off.
    pub shelly_mac: Option<String>,
    pub shutdown_ssh: Option<SshShutdownConfig>,
    pub shutdown_api_path: Option<String>,
}

/// A step of the sequence.
#[derive(Debug)]
pub enum StopStep {
    /// Stop over SSH, then `after_graceful`.
    Ssh(SshStoppable),
    /// Stop by a request, then `after_graceful`.
    Rest(RestApiStoppable),
    /// Wait, then `after_wait`.
    Wait { secs: u64, deadline: u128 },
    /// Turn off the plug, then `after_plug`.
    Plug(ShellyPlugStoppable),
    /// The sequence has ended.
    Done(Result<(), String>),
}

impl CompositeStoppable {
    /// The step that turns off the plug, if there is one to turn off.
    pub open spec fn cuts_power(self, step: StopStep) -> bool {
        match self.shelly_mac {
            Some(mac) => {
                &&& step matches StopStep::Plug(plug)
                &&& plug.shelly_mac@ == mac@
            },
            None => step == StopStep::Done(Ok(())),
        }
    }

    /// The step while the device is waited for: wait on, until it is offline or
    /// the deadline has come.
    pub open spec fn polls(
        self,
        devices: Map<Ipv4Addr, DeviceInfo>,
        now: u64,
        deadline: u128,
        step: StopStep,
    ) -> bool {
        if network_scanner::on_network(devices, self.target_mac@) && now < deadline {
            step == (StopStep::Wait { secs: OFFLINE_INTERVAL, deadline })
        } else {
            self.cuts_power(step)
        }
    }

    /// The step after the graceful shutdown of a device that was on the
    /// network: the device is only waited for where a plug is to be turned off.
    pub open spec fn follows_graceful(
        self,
        devices: Map<Ipv4Addr, DeviceInfo>,
        now: u64,
        step: StopStep,
    ) -> bool {
        if self.shelly_mac is Some {
            self.polls(devices, now, (now + OFFLINE_TIMEOUT) as u128, step)
        } else {
            step == StopStep::Done(Ok(()))
        }
    }

    /// The graceful shutdown of the device at an address: over SSH where that
    /// is configured, else by a request.
    pub open spec fn shuts_down(self, address: Ipv4Addr, step: StopStep) -> bool {
        match (self.shutdown_ssh, self.shutdown_api_path) {
            (Some(config), _) => {
                &&& step matches StopStep::Ssh(ssh)
                &&& ssh.is_configured(ip::dotted(address), config)
            },
            (None, Some(path)) => {
                &&& step matches StopStep::Rest(rest)
                &&& rest.url@ == shutdown_url(ip::dotted(address), self.target_port, path@)
            },
            (None, None) => false,
        }
    }

    /// The sequence that stops a device.
    pub fn new(
        target_name: String,
        target_mac: String,
        target_port: u16,
        shelly_mac: Option<String>,
        shutdown_ssh: Option<SshShutdownConfig>,
        shutdown_api_path: Option<String>,
    ) -> (r: Self)
        ensures
            r == (CompositeStoppable {
                target_name,
                target_mac,
                target_port,
                shelly_mac,
                shutdown_ssh,
                shutdown_api_path,
            }),
    {
        CompositeStoppable {
            target_name,
            target_mac,
            target_port,
            shelly_mac,
            shutdown_ssh,
            shutdown_api_path,
        }
    }

    /// Goes on after the graceful shutdown, whatever came of it.
    pub fn after_graceful(
        &self,
        result: Result<(), String>,
        scanner: &NetworkScanner,
        now: u64,
    ) -> (step: StopStep)
        ensures
            self.follows_graceful(scanner.devices(), now, step),
    {
        if self.shelly_mac.is_some() {
            self.after_wait(scanner, now, now as u128 + OFFLINE_TIMEOUT as u128)
        } else {
            StopStep::Done(Ok(()))
        }
    }

    /// Goes on after waiting for the device to go offline.
    pub fn after_wait(&self, scanner: &NetworkScanner, now: u64, deadline: u128) -> (step: StopStep)
        ensures
            self.polls(scanner.devices(), now, deadline, step),
    {
        if scanner.get_ip_by_mac(self.target_mac.as_str()).is_some() && (now as u128) < deadline {
            StopStep::Wait { secs: OFFLINE_INTERVAL, deadline }
        } else {
            self.cut_power()
        }
    }

    /// Ends the sequence after the plug was turned off, whatever came of it.
    pub fn after_plug(&self, result: Result<(), String>) -> (step: StopStep)
        ensures
            step == StopStep::Done(Ok(())),
    {
        StopStep::Done(Ok(()))
    }

    fn cut_power(&self) -> (step: StopStep)
        ensures
            self.cuts_power(step),
    {
        match &self.shelly_mac {
            Some(mac) => StopStep::Plug(ShellyPlugStoppable::new(mac.clone())),
            None => StopStep::Done(Ok(())),
        }
    }
}

impl Stoppable for CompositeStoppable {
    type Step = StopStep;

    open spec fn stops_with(
        &self,
        devices: Map<Ipv4Addr, DeviceInfo>,
        now: u64,
        step: StopStep,
    ) -> bool {
        if !network_scanner::on_network(devices, self.target_mac@) {
            self.cuts_power(step)
        } else if self.shutdown_ssh is Some || self.shutdown_api_path is Some {
            exists|address: Ipv4Addr| #[trigger]
                network_scanner::is_address_of(devices, self.target_mac@, address)
                    && self.shuts_down(address, step)
        } else {
            self.cuts_power(step)
        }
    }

    fn stop(&self, scanner: &NetworkScanner, now: u64) -> (step: StopStep) {
        let address = match scanner.get_ip_by_mac(self.target_mac.as_str()) {
            Some(a) => a,
            None => {
                return self.cut_power();
            },
        };
        match &self.shutdown_ssh {
            Some(config) => StopStep::Ssh(SshStoppable::from_config(address.to_text(), config)),
            None => match &self.shutdown_api_path {
                Some(path) => StopStep::Rest(
                    RestApiStoppable::new(
                        address.to_text().as_str(),
                        self.target_port,
                        path.as_str(),
                    ),
                ),
                None => self.cut_power(),
            },
        }
    }
}

// ---------------------------------------------------------------------------
// Stop requests
// ---------------------------------------------------------------------------
/// The answer to a stop request, and the sequence to run in the background.
#[derive(Debug)]
pub struct StopDecision {
    pub reply: Reply,
    pub stopper: Option<CompositeStoppable>,
}

/// The message for a target that cannot be stopped.
pub open spec fn no_stop_methods() -> Seq<char> {
    "Target has no stop methods configured (need shelly_power_mac, shutdown_ssh, or shutdown_api_path)"@
}

/// The plug to turn off when a target is stopped: the one that powers the
/// device, where the configuration says so.
pub open spec fn plug_to_cut(
    shelly_power_mac: Option<String>,
    shutdown_plug_off: bool,
) -> Option<String> {
    if shutdown_plug_off {
        shelly_power_mac
    } else {
        None
    }
}

/// What is decided on a request to stop a target.
pub open spec fn is_stop_decision(
    targets: Map<Seq<char>, RelayTarget>,
    name: Seq<char>,
    d: StopDecision,
) -> bool {
    if !targets.contains_key(name) {
        d.reply.is_error(404, name, "Unknown target"@) && d.stopper is None
    } else {
        match targets[name] {
            RelayTarget::Mac {
                mac,
                port,
                shelly_power_mac,
                shutdown_ssh,
                shutdown_api_path,
                shutdown_plug_off,
                ..
            } => {
                let plug = plug_to_cut(shelly_power_mac, shutdown_plug_off);
                if plug is None && shutdown_ssh is None && shutdown_api_path is None {
                    d.reply.is_error(400, name, no_stop_methods()) && d.stopper is None
                } else {
                    &&& d.reply.is_empty(204)
                    &&& d.stopper matches Some(s)
                    &&& s.target_name@ == name
                    &&& s.target_mac@ == mac@
                    &&& s.target_port == port
                    &&& s.shelly_mac == plug
                    &&& s.shutdown_ssh == shutdown_ssh
                    &&& s.shutdown_api_path == shutdown_api_path
                }
            },
            _ => d.reply.is_error(400, name, "Static targets do not support remote stop"@)
                && d.stopper is None,
        }
    }
}

/// Decides on a request to stop a target. The sequence runs in the background:
/// the answer does not wait for it.
pub fn stop_target_handler(target_name: String, relay_state: &RelayState) -> (r: StopDecision)
    ensures
        is_stop_decision(relay_state.targets@, target_name@, r),
{
    let target = match relay_state.targets.get(&target_name) {
        Some(t) => t,
        None => {
            return StopDecision {
                reply: Reply::error(404, target_name.as_str(), "Unknown target".to_owned()),
                stopper: None,
            };
        },
    };
    match target {
        RelayTarget::Mac {
            mac,
            port,
            shelly_power_mac,
            shutdown_ssh,
            shutdown_api_path,
            shutdown_plug_off,
            ..
        } => {
            let plug = if *shutdown_plug_off {
                copy_text(shelly_power_mac)
            } else {
                None
            };
            if plug.is_none() && shutdown_ssh.is_none() && shutdown_api_path.is_none() {
                return StopDecision {
                    reply: Reply::error(
                        400,
                        target_name.as_str(),
                        "Target has no stop methods configured (need shelly_power_mac, shutdown_ssh, or shutdown_api_path)".to_owned(),
                    ),
                    stopper: None,
                };
            }
            let ssh = match shutdown_ssh {
                Some(config) => Some(config.clone()),
                None => None,
            };
            StopDecision {
                reply: Reply::empty(204),
                stopper: Some(
                    CompositeStoppable::new(
                        target_name,
                        mac.clone(),
                        *port,
                        plug,
                        ssh,
                        copy_text(shutdown_api_path),
                    ),
                ),
            }
        },
        _ => StopDecision {
            reply: Reply::error(
                400,
                target_name.as_str(),
                "Static targets do not support remote stop".to_owned(),
            ),
            stopper: None,
        },
    }
}

// ---------------------------------------------------------------------------
// Laws
// ---------------------------------------------------------------------------
/// The password never stands among the arguments: they are the same whatever
/// the password is.
pub proof fn arguments_do_not_tell_the_password(a: SshStoppable, b: SshStoppable)
    requires
        a.password is Some,
        b.password is Some,
        a.host@ == b.host@,
        a.port == b.port,
        a.username@ == b.username@,
        a.command@ == b.command@,
    ensures
        a.arguments() == b.arguments(),
{
}

/// A password makes the key file irrelevant, and no key is tried.
pub proof fn password_takes_the_place_of_the_key(s: SshStoppable)
    requires
        s.password is Some,
    ensures
        s.key_options().len() == 0,
        s.auth_options().contains("PubkeyAuthentication=no"@),
{
    assert(s.auth_options()[3] == "PubkeyAuthentication=no"@);
}

/// A device that is on the network is shut down over SSH where that is
/// configured, whatever else is.
pub proof fn ssh_takes_precedence(
    s: CompositeStoppable,
    devices: Map<Ipv4Addr, DeviceInfo>,
    now: u64,
    step: StopStep,
)
    requires
        network_scanner::on_network(devices, s.target_mac@),
        s.shutdown_ssh is Some,
        s.stops_with(devices, now, step),
    ensures
        step is Ssh,
{
}

/// Where the plug is the only way to stop a device, the power is cut at once,
/// whether or not the device is on the network.
pub proof fn plug_alone_cuts_the_power_at_once(
    s: CompositeStoppable,
    devices: Map<Ipv4Addr, DeviceInfo>,
    now: u64,
    step: StopStep,
)
    requires
        s.shelly_mac is Some,
        s.shutdown_ssh is None,
        s.shutdown_api_path is None,
        s.stops_with(devices, now, step),
    ensures
        step matches StopStep::Plug(plug) && plug.shelly_mac@ == s.shelly_mac->0@,
{
}

/// After a graceful shutdown the plug is turned off only where one was named,
/// and only of a device that is off the network or out of time.
pub proof fn power_is_cut_only_when_the_wait_is_over(
    s: CompositeStoppable,
    devices: Map<Ipv4Addr, DeviceInfo>,
    now: u64,
    deadline: u128,
    step: StopStep,
)
    requires
        s.polls(devices, now, deadline, step),
        step is Plug,
    ensures
        s.shelly_mac is Some,
        !network_scanner::on_network(devices, s.target_mac@) || now >= deadline,
{
}

/// One step of a stop follows another.
pub open spec fn follows(
    s: CompositeStoppable,
    before: StopStep,
    devices: Map<Ipv4Addr, DeviceInfo>,
    now: u64,
    after: StopStep,
) -> bool {
    match before {
        StopStep::Ssh(_) => s.follows_graceful(devices, now, after),
        StopStep::Rest(_) => s.follows_graceful(devices, now, after),
        StopStep::Wait { deadline, .. } => s.polls(devices, now, deadline, after),
        StopStep::Plug(_) => after == StopStep::Done(Ok(())),
        StopStep::Done(_) => false,
    }
}

/// The part of the sequence that a step belongs to.
pub open spec fn stage(step: StopStep) -> nat {
    match step {
        StopStep::Ssh(_) => 0,
        StopStep::Rest(_) => 0,
        StopStep::Wait { .. } => 1,
        StopStep::Plug(_) => 2,
        StopStep::Done(_) => 3,
    }
}

/// A stop only moves forward: graceful shutdown, wait, plug and end come in
/// this order, and only the wait goes on for more than one step, with the same
/// deadline.
pub proof fn stop_only_moves_forward(
    s: CompositeStoppable,
    before: StopStep,
    devices: Map<Ipv4Addr, DeviceInfo>,
    now: u64,
    after: StopStep,
)
    requires
        follows(s, before, devices, now, after),
    ensures
        stage(before) < stage(after) || (before is Wait && after == (StopStep::Wait {
            secs: OFFLINE_INTERVAL,
            deadline: before->deadline,
        })),
{
}

/// The steps of a stop, with the devices on the network and the reading of the
/// clock at each.
pub open spec fn is_sequence(
    s: CompositeStoppable,
    devices: Seq<Map<Ipv4Addr, DeviceInfo>>,
    readings: Seq<u64>,
    steps: Seq<StopStep>,
) -> bool {
    &&& steps.len() > 0
    &&& devices.len() == steps.len()
    &&& readings.len() == steps.len()
    &&& s.stops_with(devices[0], readings[0], steps[0])
    &&& forall|i: int|
        0 < i < steps.len() ==> follows(
            s,
            steps[i - 1],
            devices[i],
            readings[i],
            #[trigger] steps[i],
        )
}

/// A stop that ends does so in success. Where a plug is to be turned off, that
/// is done exactly once, as the last thing before the end; where none is, no
/// plug is touched.
pub proof fn power_is_cut_once_and_last(
    s: CompositeStoppable,
    devices: Seq<Map<Ipv4Addr, DeviceInfo>>,
    readings: Seq<u64>,
    steps: Seq<StopStep>,
)
    requires
        is_sequence(s, devices, readings, steps),
        steps.last() is Done,
    ensures
        steps.last() == StopStep::Done(Ok(())),
        match s.shelly_mac {
            Some(mac) => {
                &&& steps.len() >= 2
                &&& steps[steps.len() - 2] matches StopStep::Plug(plug)
                &&& plug.shelly_mac@ == mac@
                &&& forall|i: int|
                    0 <= i < steps.len() && i != steps.len() - 2 ==> #[trigger] steps[i] !is Plug
            },
            None => forall|i: int| 0 <= i < steps.len() ==> #[trigger] steps[i] !is Plug,
        },
{
    let n = steps.len() - 1;
    assert forall|i: int| 0 <= i < steps.len() && (#[trigger] steps[i]) is Plug implies i == n - 1
        && s.cuts_power(steps[i]) by {
        if i > 0 {
            assert(follows(s, steps[i - 1], devices[i], readings[i], steps[i]));
        }
        assert(i < n);
        assert(follows(s, steps[(i + 1) - 1], devices[i + 1], readings[i + 1], steps[i + 1]));
        if i + 1 < n {
            assert(follows(s, steps[(i + 2) - 1], devices[i + 2], readings[i + 2], steps[i + 2]));
        }
    }
    if n > 0 {
        assert(follows(s, steps[n - 1], devices[n], readings[n], steps[n]));
        if s.shelly_mac is Some {
            assert(steps[n - 1] is Plug);
        }
    }
}

/// The steps of a stop on a clock that never goes back, each wait taking its
/// time.
pub open spec fn is_run(
    s: CompositeStoppable,
    devices: Seq<Map<Ipv4Addr, DeviceInfo>>,
    readings: Seq<u64>,
    steps: Seq<StopStep>,
) -> bool {
    &&& is_sequence(s, devices, readings, steps)
    &&& forall|i: int|
        0 < i < steps.len() ==> (#[trigger] readings[i]) >= readings[i - 1] + (
        if steps[i - 1] is Wait {
            10_000_000_000int
        } else {
            0
        })
}

/// A wait follows the graceful shutdown: its deadline counts from there, and
/// all the time since then was spent waiting.
spec fn waits_since(readings: Seq<u64>, i: int, deadline: u128) -> bool {
    &&& 1 <= i
    &&& deadline == readings[1] + OFFLINE_TIMEOUT
    &&& readings[i] >= readings[1] + (i - 1) * 10_000_000_000
    &&& readings[i] < deadline
}

/// Where a step can stand in a stop.
spec fn in_place(readings: Seq<u64>, step: StopStep, i: int) -> bool {
    match step {
        StopStep::Ssh(_) => i == 0,
        StopStep::Rest(_) => i == 0,
        StopStep::Wait { deadline, .. } => waits_since(readings, i, deadline),
        StopStep::Plug(_) => i <= 31,
        StopStep::Done(result) => i <= 32 && result is Ok,
    }
}

/// Every step of a stop stands where it can.
proof fn lemma_in_place(
    s: CompositeStoppable,
    devices: Seq<Map<Ipv4Addr, DeviceInfo>>,
    readings: Seq<u64>,
    steps: Seq<StopStep>,
    i: int,
)
    requires
        is_run(s, devices, readings, steps),
        0 <= i < steps.len(),
    ensures
        in_place(readings, steps[i], i),
    decreases i,
{
    let step = steps[i];
    if i > 0 {
        let before = steps[i - 1];
        lemma_in_place(s, devices, readings, steps, i - 1);
        assert(follows(s, before, devices[i], readings[i], step));
        assert(readings[i] >= readings[i - 1]);
        if before is Wait {
            assert(i - 2 < 30);
        }
    }
}

/// A stop ends, whatever the network shows and whatever fails on the way: with
/// at most thirty waits, and in success.
pub proof fn every_stop_ends(
    s: CompositeStoppable,
    devices: Seq<Map<Ipv4Addr, DeviceInfo>>,
    readings: Seq<u64>,
    steps: Seq<StopStep>,
)
    requires
        is_run(s, devices, readings, steps),
    ensures
        steps.len() <= 33,
        steps.last() matches StopStep::Done(result) ==> result is Ok,
{
    let n = steps.len() - 1;
    lemma_in_place(s, devices, readings, steps, n);
    if steps[n] is Wait {
        assert(n - 1 < 30);
    }
}

/// A plug that only serves to start a device stays on when it is stopped.
pub proof fn plug_stays_on_unless_told_otherwise(
    targets: Map<Seq<char>, RelayTarget>,
    name: Seq<char>,
    d: StopDecision,
)
    requires
        targets.contains_key(name),
        targets[name] is Mac,
        !targets[name]->shutdown_plug_off,
        is_stop_decision(targets, name, d),
    ensures
        d.stopper matches Some(s) ==> s.shelly_mac is None,
{
}

/// A request to stop a device is accepted exactly where there is a way to stop
/// it: SSH, a shutdown path, or a plug that powers it and is to be turned off.
/// The answer is then 204, and what runs has exactly these ways.
pub proof fn device_with_a_way_is_stopped(name: String, state: RelayState, d: StopDecision)
    requires
        call_ensures(stop_target_handler, (name, &state), d),
        state.targets@.contains_key(name@),
        state.targets@[name@] is Mac,
    ensures
        ({
            let t = state.targets@[name@];
            let has_ssh = t->shutdown_ssh is Some;
            let has_path = t->shutdown_api_path is Some;
            let has_plug = t->shutdown_plug_off && t->shelly_power_mac is Some;
            &&& has_ssh || has_path || has_plug <==> d.reply.status == 204
            &&& has_ssh || has_path || has_plug <==> d.stopper is Some
            &&& has_ssh || has_path || has_plug ==> {
                &&& d.reply.body is Empty
                &&& d.stopper->0.shutdown_ssh == t->shutdown_ssh
                &&& d.stopper->0.shutdown_api_path == t->shutdown_api_path
                &&& has_plug ==> d.stopper->0.shelly_mac == t->shelly_power_mac
                &&& !has_plug ==> d.stopper->0.shelly_mac is None
                &&& d.stopper->0.target_name@ == name@
                &&& d.stopper->0.target_mac@ == t->mac@
                &&& d.stopper->0.target_port == t->port
            }
            &&& !has_ssh && !has_path && !has_plug ==> {
                &&& d.reply.status == 400
                &&& d.reply.body matches reply::Body::Error(e)
                &&& e.status@ == "error"@
                &&& e.target@ == name@
                &&& e.message@
                    == "Target has no stop methods configured (need shelly_power_mac, shutdown_ssh, or shutdown_api_path)"@
            }
        }),
{
}

/// A name that no target has is answered with 404, a fixed URL with 400, and
/// nothing runs.
pub proof fn stop_is_refused_with_the_reason(name: String, state: RelayState, d: StopDecision)
    requires
        call_ensures(stop_target_handler, (name, &state), d),
        !state.targets@.contains_key(name@) || state.targets@[name@] !is Mac,
    ensures
        ({
            let known = state.targets@.contains_key(name@);
            &&& d.stopper is None
            &&& d.reply.status == (if known {
                400
            } else {
                404u16
            })
            &&& d.reply.body matches reply::Body::Error(e)
            &&& e.status@ == "error"@
            &&& e.target@ == name@
            &&& e.message@ == (if known {
                "Static targets do not support remote stop"@
            } else {
                "Unknown target"@
            })
        }),
{
}

/// A shutdown over SSH runs the command that is configured, or that of the
/// operating system, with the configured user, port, key and password.
pub proof fn configuration_decides_the_shutdown(
    host: String,
    config: SshShutdownConfig,
    s: SshStoppable,
)
    requires
        call_ensures(SshStoppable::from_config, (host, &config), s),
    ensures
        s.host@ == host@,
        s.port == config.port,
        s.username@ == config.username@,
        s.key_file == config.key_file,
        s.password == config.password,
        config.command is Some ==> s.command@ == config.command->0@,
        config.command is None && config.os == TargetOs::Linux ==> s.command@ == "sudo poweroff"@,
        config.command is None && config.os == TargetOs::Windows ==> s.command@
            == "shutdown /s /t 0"@,
{
}

/// With a password, the client is run by `sshpass` with these arguments, and the
/// password stands in the environment.
pub proof fn command_line_with_a_password(
    s: SshStoppable,
    devices: Map<Ipv4Addr, DeviceInfo>,
    now: u64,
    c: SshCommand,
)
    requires
        s.stops_with(devices, now, c),
        s.password is Some,
    ensures
        c.program@ == "sshpass"@,
        ({
            &&& c.env matches Some((name, value))
            &&& name@ == "SSHPASS"@
            &&& value@ == s.password->0@
        }),
        texts(c.args@) == seq![
            "-e"@,
            "ssh"@,
            "-o"@,
            "StrictHostKeyChecking=no"@,
            "-o"@,
            "UserKnownHostsFile=/dev/null"@,
            "-o"@,
            "ConnectTimeout=5"@,
            "-o"@,
            "BatchMode=no"@,
            "-o"@,
            "PubkeyAuthentication=no"@,
            "-p"@,
            text::decimal(s.port as nat),
            s.username@ + "@"@ + s.host@,
            s.command@,
        ],
{
}

/// Without a password, the client is run with these arguments, among them the
/// key file where there is one, and nothing stands in the environment.
pub proof fn command_line_without_a_password(
    s: SshStoppable,
    devices: Map<Ipv4Addr, DeviceInfo>,
    now: u64,
    c: SshCommand,
)
    requires
        s.stops_with(devices, now, c),
        s.password is None,
    ensures
        c.program@ == "ssh"@,
        c.env is None,
        texts(c.args@) == seq![
            "-o"@,
            "StrictHostKeyChecking=no"@,
            "-o"@,
            "UserKnownHostsFile=/dev/null"@,
            "-o"@,
            "ConnectTimeout=5"@,
            "-o"@,
            "BatchMode=yes"@,
            "-p"@,
            text::decimal(s.port as nat),
        ] + (match s.key_file {
            Some(k) => seq!["-i"@, k@],
            None => Seq::empty(),
        }) + seq![s.username@ + "@"@ + s.host@, s.command@],
{
}

/// A shutdown over SSH succeeds exactly when the command ran and ended with
/// exit code 0 or 255; else it fails with the reason.
pub proof fn exit_code_decides_the_shutdown(
    s: SshStoppable,
    outcome: SshOutcome,
    result: Result<(), String>,
)
    requires
        call_ensures(SshStoppable::finish, (&s, outcome), result),
    ensures
        match outcome {
            SshOutcome::NotRun(e) => {
                &&& result is Err
                &&& s.password is Some ==> result->Err_0@
                    == "Failed to execute sshpass/ssh command (is sshpass installed?): "@ + e@
                &&& s.password is None ==> result->Err_0@ == "Failed to execute ssh command: "@
                    + e@
            },
            SshOutcome::Exited { code, .. } => result is Ok <==> code == Some(0i32) || code == Some(
                255i32,
            ),
        },
{
}

/// The message for a command that failed has its exit code, with a minus sign
/// where it is negative and -1 where there is none, and what it wrote without
/// white space around it.
pub proof fn exit_is_told(
    code: Option<i32>,
    written: &str,
    message: String,
    front: Seq<char>,
    middle: Seq<char>,
    back: Seq<char>,
)
    requires
        call_ensures(exit_message, (code, written), message),
        written@ == front + middle + back,
        forall|i: int| 0 <= i < front.len() ==> text::is_blank(#[trigger] front[i]),
        forall|i: int| 0 <= i < back.len() ==> text::is_blank(#[trigger] back[i]),
        middle.len() > 0 ==> !text::is_blank(middle.first()) && !text::is_blank(middle.last()),
    ensures
        message@ == "SSH command exited with "@ + (match code {
            Some(c) => if c >= 0 {
                text::decimal(c as nat)
            } else {
                "-"@ + text::decimal((-c) as nat)
            },
            None => "-1"@,
        }) + ": "@ + middle,
{
    let class = CharClass::Whitespace;
    assert forall|i: int| 0 <= i < front.len() implies class.has(#[trigger] front[i]) by {
        assert(text::is_blank(front[i]));
    }
    assert forall|i: int| 0 <= i < back.len() implies class.has(#[trigger] back[i]) by {
        assert(text::is_blank(back[i]));
    }
    if middle.len() > 0 {
        text::lemma_blank(middle.first());
        text::lemma_blank(middle.last());
        text::lemma_trim_padded(front, middle, back, class);
    } else {
        let (from, to) = text::trimming_takes_the_ends(written@, class);
        assert(from == to) by {
            if from < to {
                let c = written@[from];
                assert(from < front.len() ==> c == front[from]);
                assert(from >= front.len() ==> c == back[from - front.len()]);
            }
        }
        assert(text::trim(written@, class) == middle);
    }
    reveal_strlit("-1");
    reveal_strlit("-");
    text::decimal_digit_by_digit(0, 1);
    reveal_strlit("0123456789");
    assert("-"@ + text::decimal(1) == "-1"@);
}

/// What a failed command wrote is told in its error.
pub proof fn output_is_told(s: SshStoppable, outcome: SshOutcome, result: Result<(), String>)
    requires
        call_ensures(SshStoppable::finish, (&s, outcome), result),
        outcome is Exited,
        result is Err,
    ensures
        result->Err_0@ == exit_text(outcome->code, outside::lossy_text(outcome->stderr@)),
{
}

/// A shutdown request is posted for ten seconds to the path of the service,
/// whatever slashes stand before the path.
pub proof fn shutdown_is_posted_to_the_path(
    host: &str,
    port: u16,
    api_path: &str,
    s: RestApiStoppable,
    devices: Map<Ipv4Addr, DeviceInfo>,
    now: u64,
    request: ShutdownRequest,
    slashes: Seq<char>,
    path: Seq<char>,
)
    requires
        call_ensures(RestApiStoppable::new, (host, port, api_path), s),
        s.stops_with(devices, now, request),
        api_path@ == slashes + path,
        forall|i: int| 0 <= i < slashes.len() ==> #[trigger] slashes[i] == '/',
        path.len() == 0 || path[0] != '/',
    ensures
        request.url@ == "http://"@ + host@ + ":"@ + text::decimal(port as nat) + "/"@ + path,
        request.timeout_secs == 10,
{
    lemma_leading_slashes(slashes, path);
}

/// Slashes at the start are trimmed.
proof fn lemma_leading_slashes(slashes: Seq<char>, path: Seq<char>)
    requires
        forall|i: int| 0 <= i < slashes.len() ==> #[trigger] slashes[i] == '/',
        path.len() == 0 || path[0] != '/',
    ensures
        text::trim_start(slashes + path, CharClass::Only('/')) == path,
    decreases slashes.len(),
{
    if slashes.len() == 0 {
        assert(slashes + path == path);
    } else {
        let fewer = slashes.drop_first();
        assert((slashes + path).first() == slashes[0]);
        assert((slashes + path).drop_first() == fewer + path);
        assert forall|i: int| 0 <= i < fewer.len() implies #[trigger] fewer[i] == '/' by {
            assert(fewer[i] == slashes[i + 1]);
        }
        lemma_leading_slashes(fewer, path);
    }
}

/// A shutdown request succeeds exactly when the device answers with success;
/// else it fails with the reason.
pub proof fn answer_decides_the_shutdown(
    s: RestApiStoppable,
    outcome: HttpOutcome,
    result: Result<(), String>,
)
    requires
        call_ensures(RestApiStoppable::finish, (&s, outcome), result),
    ensures
        match outcome {
            HttpOutcome::Answered(code) => if 200 <= code && code <= 299 {
                result is Ok
            } else {
                &&& result matches Err(m)
                &&& m@ == "Shutdown API responded with status: "@ + outside::status_line(code)
            },
            HttpOutcome::Failed(e) => {
                &&& result matches Err(m)
                &&& m@ == "Failed to send shutdown request to "@ + s.url@ + ": "@ + e@
            },
        },
{
}

/// A stop of a device that is on the network begins with SSH where that is
/// configured, else with a request to the shutdown path where there is one, each
/// to an address of the device; else, and for a device that is off the network,
/// with the plug where one is to be turned off. Where there is nothing to do it
/// has ended.
pub proof fn stop_begins_with_the_first_way(
    s: CompositeStoppable,
    devices: Map<Ipv4Addr, DeviceInfo>,
    now: u64,
    step: StopStep,
)
    requires
        s.stops_with(devices, now, step),
    ensures
        ({
            let present = network_scanner::on_network(devices, s.target_mac@);
            if present && s.shutdown_ssh is Some {
                &&& step matches StopStep::Ssh(ssh)
                &&& exists|a: Ipv4Addr| #[trigger]
                    network_scanner::is_address_of(devices, s.target_mac@, a) && ssh.host@
                        == ip::dotted(a)
                &&& ssh.port == s.shutdown_ssh->0.port
                &&& ssh.username@ == s.shutdown_ssh->0.username@
                &&& ssh.key_file == s.shutdown_ssh->0.key_file
                &&& ssh.password == s.shutdown_ssh->0.password
                &&& ssh.command@ == (match s.shutdown_ssh->0.command {
                    Some(command) => command@,
                    None => match s.shutdown_ssh->0.os {
                        TargetOs::Linux => "sudo poweroff"@,
                        TargetOs::Windows => "shutdown /s /t 0"@,
                    },
                })
            } else if present && s.shutdown_api_path is Some {
                &&& step matches StopStep::Rest(rest)
                &&& exists|a: Ipv4Addr| #[trigger]
                    network_scanner::is_address_of(devices, s.target_mac@, a) && rest.url@
                        == shutdown_url(ip::dotted(a), s.target_port, s.shutdown_api_path->0@)
            } else if s.shelly_mac is Some {
                &&& step matches StopStep::Plug(plug)
                &&& plug.shelly_mac@ == s.shelly_mac->0@
            } else {
                step == StopStep::Done(Ok(()))
            }
        }),
{
    if network_scanner::on_network(devices, s.target_mac@) && (s.shutdown_ssh is Some
        || s.shutdown_api_path is Some) {
        let a = choose|a: Ipv4Addr| #[trigger]
            network_scanner::is_address_of(devices, s.target_mac@, a) && s.shuts_down(a, step);
        assert(network_scanner::is_address_of(devices, s.target_mac@, a));
    }
}

/// After a graceful shutdown, whatever came of it, a device whose plug is to be
/// turned off is waited for while it is on the network, ten seconds at a time
/// and five minutes at most; then the plug is turned off. Without such a plug
/// the stop has ended.
pub proof fn graceful_shutdown_is_waited_for(
    s: CompositeStoppable,
    result: Result<(), String>,
    scanner: NetworkScanner,
    now: u64,
    step: StopStep,
)
    requires
        call_ensures(CompositeStoppable::after_graceful, (&s, result, &scanner, now), step),
    ensures
        s.shelly_mac is None ==> step == StopStep::Done(Ok(())),
        s.shelly_mac is Some && network_scanner::on_network(scanner.devices(), s.target_mac@) ==> {
            &&& step matches StopStep::Wait { secs, deadline }
            &&& secs == 10
            &&& deadline == now + 5 * 60 * 1_000_000_000
        },
        s.shelly_mac is Some && !network_scanner::on_network(scanner.devices(), s.target_mac@) ==> {
            &&& step matches StopStep::Plug(plug)
            &&& plug.shelly_mac@ == s.shelly_mac->0@
        },
{
}

/// A wait goes on while the device is on the network and the deadline has not
/// come, with the same deadline; else the plug is turned off. After the plug the
/// stop has ended, whatever came of it.
pub proof fn wait_ends_with_the_plug(
    s: CompositeStoppable,
    scanner: NetworkScanner,
    now: u64,
    deadline: u128,
    step: StopStep,
    result: Result<(), String>,
    end: StopStep,
)
    requires
        call_ensures(CompositeStoppable::after_wait, (&s, &scanner, now, deadline), step),
        call_ensures(CompositeStoppable::after_plug, (&s, result), end),
        s.shelly_mac is Some,
    ensures
        network_scanner::on_network(scanner.devices(), s.target_mac@) && now < deadline ==> step
            == (StopStep::Wait { secs: 10, deadline }),
        !network_scanner::on_network(scanner.devices(), s.target_mac@) || now >= deadline ==> {
            &&& step matches StopStep::Plug(plug)
            &&& plug.shelly_mac@ == s.shelly_mac->0@
        },
        end == StopStep::Done(Ok(())),
{
}

/// Arguments are compared by all their characters, one by one.
pub proof fn arguments_are_compared_whole(args: Seq<String>, written: Seq<Seq<char>>)
    ensures
        texts(args) == written <==> args.len() == written.len() && forall|i: int|
            0 <= i < args.len() ==> #[trigger] args[i]@ == written[i],
{
    assert(texts(args).len() == args.len());
    if texts(args) == written {
        assert forall|i: int| 0 <= i < args.len() implies #[trigger] args[i]@ == written[i] by {
            assert(texts(args)[i] == args[i]@);
        }
    }
    if args.len() == written.len() && forall|i: int|
        0 <= i < args.len() ==> #[trigger] args[i]@ == written[i] {
        assert(texts(args) == written);
    }
}

} // verus!
