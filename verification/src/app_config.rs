//! The configuration: server, users, scanner, smart plugs and relay targets,
//! with the defaults of the settings that may be left out.

use vstd::prelude::*;

use crate::assoc_map::StringMap;

verus! {

/// The whole configuration.
#[derive(Debug)]
pub struct Settings {
    pub server: ServerSettings,
    pub scanner: ScannerSettings,
    pub relay: RelaySettings,
    /// Known users; none of them disables authentication.
    pub users: Vec<UserConfig>,
    /// Smart plugs by name.
    pub plugs: StringMap<PlugSettings>,
}

/// Where the server listens, and how long its tokens live.
#[derive(Debug)]
pub struct ServerSettings {
    pub host: String,
    pub port: u16,
    /// How long (in seconds) a token stays valid after it was issued.
    pub token_ttl_seconds: u64,
}

/// A user and the bcrypt hash of the password.
#[derive(Debug)]
pub struct UserConfig {
    pub username: String,
    pub password_hash: String,
}

/// What the network scanner scans, and how often.
#[derive(Debug)]
pub struct ScannerSettings {
    /// First three octets of the /24 subnet, e.g. "192.168.1".
    pub network_base: String,
    pub delay_seconds: u64,
}

/// A smart plug and the device that it powers.
#[derive(Debug)]
pub struct PlugSettings {
    pub plug_ip: String,
    pub target_mac: String,
}

/// How a target is probed.
#[derive(Clone, Copy, Debug, PartialEq, Eq, Structural)]
pub enum ProbeMethod {
    /// A GET request to the probe path.
    Http,
    /// An ICMP echo request.
    Ping,
}

/// Operating system of a target: it decides the default shutdown command.
#[derive(Clone, Copy, Debug, PartialEq, Eq, Structural)]
pub enum TargetOs {
    Linux,
    Windows,
}

/// How a device is shut down over SSH.
#[derive(Debug)]
pub struct SshShutdownConfig {
    pub os: TargetOs,
    pub port: u16,
    pub username: String,
    /// Private key file; the default key of the system if there is none.
    /// Ignored when `password` is set.
    pub key_file: Option<String>,
    /// Password, fed to the client by `sshpass`.
    pub password: Option<String>,
    /// Command to run; the default of the operating system if there is none.
    pub command: Option<String>,
}

/// A relay target.
#[derive(Debug)]
pub enum RelayTarget {
    /// A fixed URL, probed at its root.
    Static(String),
    /// A device known by its MAC address, whose current address the scanner
    /// finds.
    Mac {
        mac: String,
        port: u16,
        /// Path of HTTP probes.
        probe_path: String,
        /// MAC address of the smart plug that powers the device.
        shelly_power_mac: Option<String>,
        /// Start by Wake-on-LAN; takes precedence over the plug.
        wol_enabled: bool,
        probe_method: ProbeMethod,
        shutdown_ssh: Option<SshShutdownConfig>,
        /// Path to which a shutdown request is posted.
        shutdown_api_path: Option<String>,
        /// Turn the plug off when the device is stopped.
        shutdown_plug_off: bool,
    },
    /// A fixed URL with an explicit probe.
    StaticManaged {
        url: String,
        /// Path of HTTP probes.
        probe_path: String,
        probe_method: ProbeMethod,
    },
}

/// The relay targets by name.
#[derive(Debug)]
pub struct RelaySettings {
    pub targets: StringMap<RelayTarget>,
}

/// Lifetime of a token when none is configured: one hour.
pub fn default_token_ttl_seconds() -> (r: u64)
    ensures
        r == 3600,
{
    3600
}

/// Probe path when none is configured.
pub fn default_probe_path() -> (r: String)
    ensures
        r@ == "/"@,
{
    "/".to_owned()
}

/// Probe method when none is configured.
pub fn default_probe_method() -> (r: ProbeMethod)
    ensures
        r == ProbeMethod::Http,
{
    ProbeMethod::Http
}

/// SSH port when none is configured.
pub fn default_ssh_port() -> (r: u16)
    ensures
        r == 22,
{
    22
}

/// Operating system when none is configured.
pub fn default_target_os() -> (r: TargetOs)
    ensures
        r == TargetOs::Linux,
{
    TargetOs::Linux
}

impl TargetOs {
    /// The default shutdown command.
    pub open spec fn shutdown_command(self) -> Seq<char> {
        match self {
            TargetOs::Linux => "sudo poweroff"@,
            TargetOs::Windows => "shutdown /s /t 0"@,
        }
    }

    /// Returns the default shutdown command of the operating system.
    pub fn default_shutdown_command(&self) -> (r: &'static str)
        ensures
            r@ == self.shutdown_command(),
    {
        match self {
            TargetOs::Linux => "sudo poweroff",
            TargetOs::Windows => "shutdown /s /t 0",
        }
    }
}

/// A copy of optional text.
pub fn copy_text(t: &Option<String>) -> (r: Option<String>)
    ensures
        r == *t,
{
    match t {
        Some(s) => Some(s.clone()),
        None => None,
    }
}

impl Clone for UserConfig {
    fn clone(&self) -> (r: Self)
        ensures
            r == *self,
    {
        UserConfig { username: self.username.clone(), password_hash: self.password_hash.clone() }
    }
}

impl Clone for SshShutdownConfig {
    fn clone(&self) -> (r: Self)
        ensures
            r == *self,
    {
        SshShutdownConfig {
            os: self.os,
            port: self.port,
            username: self.username.clone(),
            key_file: copy_text(&self.key_file),
            password: copy_text(&self.password),
            command: copy_text(&self.command),
        }
    }
}

impl Clone for RelayTarget {
    fn clone(&self) -> (r: Self)
        ensures
            r == *self,
    {
        match self {
            RelayTarget::Static(url) => RelayTarget::Static(url.clone()),
            RelayTarget::Mac {
                mac,
                port,
                probe_path,
                shelly_power_mac,
                wol_enabled,
                probe_method,
                shutdown_ssh,
                shutdown_api_path,
                shutdown_plug_off,
            } => RelayTarget::Mac {
                mac: mac.clone(),
                port: *port,
                probe_path: probe_path.clone(),
                shelly_power_mac: copy_text(shelly_power_mac),
                wol_enabled: *wol_enabled,
                probe_method: *probe_method,
                shutdown_ssh: match shutdown_ssh {
                    Some(config) => Some(config.clone()),
                    None => None,
                },
                shutdown_api_path: copy_text(shutdown_api_path),
                shutdown_plug_off: *shutdown_plug_off,
            },
            RelayTarget::StaticManaged { url, probe_path, probe_method } => {
                RelayTarget::StaticManaged {
                    url: url.clone(),
                    probe_path: probe_path.clone(),
                    probe_method: *probe_method,
                }
            },
        }
    }
}

impl Default for RelaySettings {
    /// No targets.
    fn default() -> (r: Self)
        ensures
            r.targets@ == Map::<Seq<char>, RelayTarget>::empty(),
    {
        RelaySettings { targets: StringMap::new() }
    }
}

// ---------------------------------------------------------------------------
// Laws
// ---------------------------------------------------------------------------
/// What holds where nothing is configured: tokens live for an hour, targets are
/// probed by HTTP at their root, and SSH goes to port 22 of a Linux machine.
pub proof fn defaults_are_fixed(
    ttl: u64,
    path: String,
    method: ProbeMethod,
    port: u16,
    os: TargetOs,
)
    requires
        call_ensures(default_token_ttl_seconds, (), ttl),
        call_ensures(default_probe_path, (), path),
        call_ensures(default_probe_method, (), method),
        call_ensures(default_ssh_port, (), port),
        call_ensures(default_target_os, (), os),
    ensures
        ttl == 3600,
        path@ == "/"@,
        method == ProbeMethod::Http,
        port == 22,
        os == TargetOs::Linux,
{
}

/// Linux is shut down by `sudo poweroff`, Windows by `shutdown /s /t 0`.
pub proof fn operating_system_decides_the_command(os: TargetOs, command: &'static str)
    requires
        call_ensures(TargetOs::default_shutdown_command, (&os,), command),
    ensures
        os == TargetOs::Linux ==> command@ == "sudo poweroff"@,
        os == TargetOs::Windows ==> command@ == "shutdown /s /t 0"@,
{
}

} // verus!
