//! Probing relay targets by HTTP request or ping.

use vstd::prelude::*;

use crate::app_config::{ProbeMethod, RelayTarget};
use crate::http_outcome::HttpOutcome;
use crate::ip;
use crate::ip::{parse_ip, IpAddr, Ipv4Addr};
use crate::network_scanner;
use crate::network_scanner::{DeviceInfo, NetworkScanner};
use crate::outside;
use crate::outside::url_host;
use crate::relay;
use crate::relay::write_address_url;
use crate::target_probeable::Probeable;
use crate::target_status::{TargetInfo, TargetStatus};
use crate::text;
use crate::text::{chars_of, join3, string_of, trim_end_of, trim_start_of, CharClass};

verus! {

/// Probes one target.
#[derive(Debug)]
pub struct RelayTargetProbe<'a> {
    pub target: &'a RelayTarget,
}

/// A step of a probe.
#[derive(Debug)]
pub enum ProbeStep {
    /// Send a GET request to a URL, then `settle` with whether it is `http_up`.
    Http { url: String },
    /// Ping an address, then `settle` with whether it answered.
    Ping { ip: IpAddr },
    /// The state is known without asking.
    Settled(TargetStatus),
}

/// The URL of a probe: base and path with one slash between them.
pub open spec fn joined_url(base: Seq<char>, path: Seq<char>) -> Seq<char> {
    text::trim_end(base, CharClass::Only('/')) + "/"@ + text::trim_start(path, CharClass::Only('/'))
}

/// Builds the URL of a probe.
pub fn probe_url(base: &str, path: &str) -> (r: String)
    ensures
        r@ == joined_url(base@, path@),
{
    let front = string_of(&trim_end_of(&chars_of(base), &CharClass::Only('/')));
    let back = string_of(&trim_start_of(&chars_of(path), &CharClass::Only('/')));
    join3(front.as_str(), "/", back.as_str())
}

/// The answer to a probe counts as up: any status below 500.
pub open spec fn is_up(outcome: HttpOutcome) -> bool {
    outcome matches HttpOutcome::Answered(code) && code < 500
}

/// Tells whether what came of a probe counts as up.
pub fn http_up(outcome: &HttpOutcome) -> (r: bool)
    ensures
        r == is_up(*outcome),
{
    match outcome {
        HttpOutcome::Answered(code) => *code < 500,
        HttpOutcome::Failed(_) => false,
    }
}

/// The step that pings the host of a URL: only hosts that are addresses are
/// pinged.
pub open spec fn pings_host(host: Option<Seq<char>>, step: ProbeStep) -> bool {
    match host {
        Some(h) => match ip::ip_of(h) {
            Some(address) => {
                &&& step matches ProbeStep::Ping { ip: pinged }
                &&& pinged@ == address
            },
            None => step == ProbeStep::Settled(TargetStatus::Offline),
        },
        None => step == ProbeStep::Settled(TargetStatus::Offline),
    }
}

/// Decides how to ping the host of a URL.
pub fn ping_host(host: Option<String>) -> (step: ProbeStep)
    ensures
        pings_host(
            match host {
                Some(h) => Some(h@),
                None => None,
            },
            step,
        ),
{
    match host {
        Some(h) => match parse_ip(h.as_str()) {
            Some(address) => ProbeStep::Ping { ip: address },
            None => ProbeStep::Settled(TargetStatus::Offline),
        },
        None => ProbeStep::Settled(TargetStatus::Offline),
    }
}

/// The step that probes the device at an address.
pub open spec fn probes_device(
    address: Ipv4Addr,
    port: u16,
    probe_path: Seq<char>,
    probe_method: ProbeMethod,
    step: ProbeStep,
) -> bool {
    match probe_method {
        ProbeMethod::Http => {
            &&& step matches ProbeStep::Http { url }
            &&& url@ == joined_url(relay::address_url(address, port), probe_path)
        },
        ProbeMethod::Ping => step == (ProbeStep::Ping { ip: IpAddr::V4(address) }),
    }
}

impl<'a> RelayTargetProbe<'a> {
    /// The state that follows from whether the target answered. A device that
    /// is on the network but does not answer is starting; a fixed URL that does
    /// not answer is offline.
    pub open spec fn settled(self, up: bool) -> TargetStatus {
        if up {
            TargetStatus::Online
        } else if self.target is Mac {
            TargetStatus::Starting
        } else {
            TargetStatus::Offline
        }
    }

    /// A probe of a target.
    pub fn new(target: &'a RelayTarget) -> (r: Self)
        ensures
            r.target == target,
    {
        RelayTargetProbe { target }
    }

    /// Ends a probe with whether the target answered.
    pub fn settle(&self, up: bool) -> (r: TargetStatus)
        ensures
            r == self.settled(up),
    {
        if up {
            return TargetStatus::Online;
        }
        match self.target {
            RelayTarget::Mac { .. } => TargetStatus::Starting,
            _ => TargetStatus::Offline,
        }
    }
}

impl<'a> Probeable for RelayTargetProbe<'a> {
    type Step = ProbeStep;

    open spec fn probes_with(&self, devices: Map<Ipv4Addr, DeviceInfo>, step: ProbeStep) -> bool {
        match *self.target {
            RelayTarget::Static(base) => {
                &&& step matches ProbeStep::Http { url }
                &&& url@ == joined_url(base@, "/"@)
            },
            RelayTarget::StaticManaged {
                url: base,
                probe_path,
                probe_method: ProbeMethod::Http,
            } => {
                &&& step matches ProbeStep::Http { url }
                &&& url@ == joined_url(base@, probe_path@)
            },
            RelayTarget::StaticManaged { url: base, probe_method: ProbeMethod::Ping, .. } => {
                pings_host(outside::url_host_name(base@), step)
            },
            RelayTarget::Mac { mac, port, probe_path, probe_method, .. } => {
                if network_scanner::on_network(devices, mac@) {
                    exists|address: Ipv4Addr| #[trigger]
                        network_scanner::is_address_of(devices, mac@, address) && probes_device(
                            address,
                            port,
                            probe_path@,
                            probe_method,
                            step,
                        )
                } else {
                    step == ProbeStep::Settled(TargetStatus::Offline)
                }
            },
        }
    }

    fn probe(&self, scanner: &NetworkScanner) -> (step: ProbeStep) {
        match self.target {
            RelayTarget::Static(base) => ProbeStep::Http {
                url: probe_url(base.as_str(), "/"),
            },
            RelayTarget::StaticManaged { url: base, probe_path, probe_method } => {
                match probe_method {
                    ProbeMethod::Http => ProbeStep::Http {
                        url: probe_url(base.as_str(), probe_path.as_str()),
                    },
                    ProbeMethod::Ping => ping_host(url_host(base.as_str())),
                }
            },
            RelayTarget::Mac { mac, port, probe_path, probe_method, .. } => {
                match scanner.get_ip_by_mac(mac.as_str()) {
                    None => ProbeStep::Settled(TargetStatus::Offline),
                    Some(address) => match probe_method {
                        ProbeMethod::Http => ProbeStep::Http {
                            url: probe_url(
                                write_address_url(&address, *port).as_str(),
                                probe_path.as_str(),
                            ),
                        },
                        ProbeMethod::Ping => ProbeStep::Ping { ip: IpAddr::V4(address) },
                    },
                }
            },
        }
    }
}

/// What is known of a target: its state, and for a device known by MAC address
/// where it is now.
pub open spec fn is_info(
    target: RelayTarget,
    devices: Map<Ipv4Addr, DeviceInfo>,
    status: TargetStatus,
    info: TargetInfo,
) -> bool {
    &&& info.status == status
    &&& match target {
        RelayTarget::Mac { mac, .. } => match info.ip {
            Some(address) => network_scanner::is_address_of(devices, mac@, address),
            None => !network_scanner::on_network(devices, mac@),
        },
        _ => info.ip is None,
    }
}

/// Puts together what is known of a target once a probe gave its state.
pub fn probe_target(
    target: &RelayTarget,
    scanner: &NetworkScanner,
    status: TargetStatus,
) -> (r: TargetInfo)
    ensures
        is_info(*target, scanner.devices(), status, r),
{
    let address = match target {
        RelayTarget::Mac { mac, .. } => scanner.get_ip_by_mac(mac.as_str()),
        _ => None,
    };
    TargetInfo { status, ip: address }
}

// ---------------------------------------------------------------------------
// Laws
// ---------------------------------------------------------------------------
/// Slashes where base and path meet do not matter.
pub proof fn slashes_at_the_joint_do_not_matter(
    base: Seq<char>,
    after: Seq<char>,
    before: Seq<char>,
    path: Seq<char>,
)
    requires
        forall|i: int| 0 <= i < after.len() ==> #[trigger] after[i] == '/',
        forall|i: int| 0 <= i < before.len() ==> #[trigger] before[i] == '/',
    ensures
        joined_url(base + after, before + path) == joined_url(base, path),
{
    lemma_slashes_end(base, after);
    lemma_slashes_start(before, path);
}

/// Slashes at the end are trimmed.
proof fn lemma_slashes_end(s: Seq<char>, after: Seq<char>)
    requires
        forall|i: int| 0 <= i < after.len() ==> #[trigger] after[i] == '/',
    ensures
        text::trim_end(s + after, CharClass::Only('/')) == text::trim_end(s, CharClass::Only('/')),
    decreases after.len(),
{
    if after.len() == 0 {
        assert(s + after == s);
    } else {
        let fewer = after.drop_last();
        assert((s + after).last() == after[after.len() - 1]);
        assert((s + after).drop_last() == s + fewer);
        lemma_slashes_end(s, fewer);
    }
}

/// Slashes at the start are trimmed.
proof fn lemma_slashes_start(before: Seq<char>, s: Seq<char>)
    requires
        forall|i: int| 0 <= i < before.len() ==> #[trigger] before[i] == '/',
    ensures
        text::trim_start(before + s, CharClass::Only('/')) == text::trim_start(
            s,
            CharClass::Only('/'),
        ),
    decreases before.len(),
{
    if before.len() == 0 {
        assert(before + s == s);
    } else {
        let fewer = before.drop_first();
        assert((before + s).first() == before[0]);
        assert((before + s).drop_first() == fewer + s);
        assert forall|i: int| 0 <= i < fewer.len() implies #[trigger] fewer[i] == '/' by {
            assert(fewer[i] == before[i + 1]);
        }
        lemma_slashes_start(fewer, s);
    }
}

/// A device that is not on the network is offline, and nothing is sent to find
/// that out.
pub proof fn absent_devices_are_offline_unasked(
    probe: RelayTargetProbe,
    devices: Map<Ipv4Addr, DeviceInfo>,
    step: ProbeStep,
)
    requires
        probe.target is Mac,
        !network_scanner::on_network(devices, probe.target->mac@),
        probe.probes_with(devices, step),
    ensures
        step == ProbeStep::Settled(TargetStatus::Offline),
{
}

/// Only a device that is on the network is ever starting: a probe that ends
/// without asking never says so, and one of a fixed URL does not either.
pub proof fn only_present_devices_are_starting(
    probe: RelayTargetProbe,
    devices: Map<Ipv4Addr, DeviceInfo>,
    step: ProbeStep,
    up: bool,
)
    requires
        probe.probes_with(devices, step),
    ensures
        step != ProbeStep::Settled(TargetStatus::Starting),
        probe.settled(up) == TargetStatus::Starting ==> probe.target is Mac && !up,
        step !is Settled && probe.target is Mac ==> network_scanner::on_network(
            devices,
            probe.target->mac@,
        ),
{
}

/// An HTTP probe counts as up exactly when an answer came whose status code is
/// below 500, and the target is online exactly then: a device that does not
/// count as up is starting, a fixed URL offline.
pub proof fn status_below_500_means_online(
    probe: RelayTargetProbe,
    outcome: HttpOutcome,
    up: bool,
    status: TargetStatus,
)
    requires
        call_ensures(http_up, (&outcome,), up),
        call_ensures(RelayTargetProbe::settle, (&probe, up), status),
    ensures
        match outcome {
            HttpOutcome::Answered(code) => (status == TargetStatus::Online) == (code < 500),
            HttpOutcome::Failed(_) => status != TargetStatus::Online,
        },
        status != TargetStatus::Online ==> status == match *probe.target {
            RelayTarget::Mac { .. } => TargetStatus::Starting,
            RelayTarget::Static(_) => TargetStatus::Offline,
            RelayTarget::StaticManaged { .. } => TargetStatus::Offline,
        },
{
}

/// A base without the slashes at its end, a slash, and a path without the
/// slashes at its start.
proof fn lemma_joint(base: Seq<char>, after: Seq<char>, before: Seq<char>, path: Seq<char>)
    requires
        forall|i: int| 0 <= i < after.len() ==> #[trigger] after[i] == '/',
        forall|i: int| 0 <= i < before.len() ==> #[trigger] before[i] == '/',
        base.len() == 0 || base.last() != '/',
        path.len() == 0 || path[0] != '/',
    ensures
        joined_url(base + after, before + path) == base + "/"@ + path,
{
    slashes_at_the_joint_do_not_matter(base, after, before, path);
    assert(text::trim_end(base, CharClass::Only('/')) == base);
    assert(text::trim_start(path, CharClass::Only('/')) == path);
}

/// The URL of a probe is the base, one slash and the path, whatever slashes
/// stand where they meet.
pub proof fn probe_url_has_one_slash_at_the_joint(
    base_text: &str,
    path_text: &str,
    url: String,
    base: Seq<char>,
    after: Seq<char>,
    before: Seq<char>,
    path: Seq<char>,
)
    requires
        call_ensures(probe_url, (base_text, path_text), url),
        base_text@ == base + after,
        path_text@ == before + path,
        forall|i: int| 0 <= i < after.len() ==> #[trigger] after[i] == '/',
        forall|i: int| 0 <= i < before.len() ==> #[trigger] before[i] == '/',
        base.len() == 0 || base.last() != '/',
        path.len() == 0 || path[0] != '/',
    ensures
        url@ == base + "/"@ + path,
{
    lemma_joint(base, after, before, path);
}

/// A fixed URL is probed by a request to its root, or to its probe path where
/// it has one and is probed by HTTP.
pub proof fn fixed_url_is_probed_by_request(
    probe: RelayTargetProbe,
    devices: Map<Ipv4Addr, DeviceInfo>,
    step: ProbeStep,
    base: Seq<char>,
    after: Seq<char>,
    before: Seq<char>,
    path: Seq<char>,
)
    requires
        probe.probes_with(devices, step),
        match *probe.target {
            RelayTarget::Static(url) => url@ == base + after && path.len() == 0,
            RelayTarget::StaticManaged { url, probe_path, probe_method } => url@ == base + after
                && probe_path@ == before + path && probe_method == ProbeMethod::Http,
            RelayTarget::Mac { .. } => false,
        },
        forall|i: int| 0 <= i < after.len() ==> #[trigger] after[i] == '/',
        forall|i: int| 0 <= i < before.len() ==> #[trigger] before[i] == '/',
        base.len() == 0 || base.last() != '/',
        path.len() == 0 || path[0] != '/',
    ensures
        step matches ProbeStep::Http { url } && url@ == base + "/"@ + path,
{
    lemma_joint(base, after, before, path);
    reveal_strlit("/");
    if probe.target is Static {
        lemma_joint(base, after, "/"@, path);
        assert("/"@ + path == "/"@);
    }
}

/// A device that is on the network is probed where it is: by a request to its
/// port and probe path, or by a ping of its address.
pub proof fn present_device_is_probed_where_it_is(
    probe: RelayTargetProbe,
    devices: Map<Ipv4Addr, DeviceInfo>,
    step: ProbeStep,
    before: Seq<char>,
    path: Seq<char>,
    address: Ipv4Addr,
)
    requires
        probe.probes_with(devices, step),
        probe.target is Mac,
        probe.target->Mac_probe_path@ == before + path,
        forall|i: int| 0 <= i < before.len() ==> #[trigger] before[i] == '/',
        path.len() == 0 || path[0] != '/',
        devices.contains_key(address),
        devices[address].mac_address is Some,
        text::lower(devices[address].mac_address->0@) == text::lower(probe.target->mac@),
    ensures
        exists|a: Ipv4Addr|
            {
                &&& #[trigger] devices.contains_key(a)
                &&& devices[a].mac_address is Some
                &&& text::lower(devices[a].mac_address->0@) == text::lower(probe.target->mac@)
                &&& match probe.target->Mac_probe_method {
                    ProbeMethod::Http => step matches ProbeStep::Http { url } && url@ == "http://"@
                        + ip::dotted(a) + ":"@ + text::decimal(probe.target->port as nat) + "/"@
                        + path,
                    ProbeMethod::Ping => step == (ProbeStep::Ping { ip: IpAddr::V4(a) }),
                }
            },
{
    let mac = probe.target->mac@;
    let port = probe.target->port;
    assert(network_scanner::is_address_of(devices, mac, address));
    let a = choose|a: Ipv4Addr| #[trigger]
        network_scanner::is_address_of(devices, mac, a) && probes_device(
            a,
            port,
            probe.target->Mac_probe_path@,
            probe.target->Mac_probe_method,
            step,
        );
    assert(devices.contains_key(a));
    let base = relay::address_url(a, port);
    let d = text::decimal(port as nat);
    text::lemma_decimal(port as nat);
    assert(text::is_digit(d[d.len() - 1]));
    assert(base.last() == d.last());
    let none = Seq::<char>::empty();
    lemma_joint(base, none, before, path);
    assert(base + none == base);
}

/// A device of which no address is known is offline, and nothing is sent.
pub proof fn absent_device_is_offline(
    probe: RelayTargetProbe,
    devices: Map<Ipv4Addr, DeviceInfo>,
    step: ProbeStep,
)
    requires
        probe.probes_with(devices, step),
        probe.target is Mac,
        forall|a: Ipv4Addr| #[trigger]
            devices.contains_key(a) ==> devices[a].mac_address is None || text::lower(
                devices[a].mac_address->0@,
            ) != text::lower(probe.target->mac@),
    ensures
        step == ProbeStep::Settled(TargetStatus::Offline),
{
    assert forall|a: Ipv4Addr| !network_scanner::is_address_of(
        devices,
        probe.target->mac@,
        a,
    ) by {
        if devices.contains_key(a) {
        }
    }
}

/// The host of a URL is pinged exactly when it is the text of an IP address,
/// and then that address is; any other host is offline.
pub proof fn only_addresses_are_pinged(host: Option<String>, step: ProbeStep, address: Ipv4Addr)
    requires
        call_ensures(ping_host, (host,), step),
    ensures
        host is Some && host->0@ == ip::dotted(address) ==> step == (ProbeStep::Ping {
            ip: IpAddr::V4(address),
        }),
        host is None || ip::ip_of(host->0@) is None ==> step == ProbeStep::Settled(
            TargetStatus::Offline,
        ),
        host is Some && ip::ip_of(host->0@) is Some ==> step is Ping,
        step matches ProbeStep::Ping { ip: pinged } ==> host is Some && ip::ip_of(host->0@) == Some(
            pinged@,
        ),
{
    ip::ipv4_text_round_trip(address);
}

/// A fixed URL that is probed by ping is pinged at the host of the URL.
pub proof fn fixed_url_is_pinged_at_its_host(
    probe: RelayTargetProbe,
    devices: Map<Ipv4Addr, DeviceInfo>,
    step: ProbeStep,
    address: Ipv4Addr,
)
    requires
        probe.probes_with(devices, step),
        probe.target is StaticManaged,
        probe.target->StaticManaged_probe_method == ProbeMethod::Ping,
    ensures
        outside::url_host_name(probe.target->url@) == Some(ip::dotted(address)) ==> step == (
        ProbeStep::Ping { ip: IpAddr::V4(address) }),
        outside::url_host_name(probe.target->url@) is None ==> step == ProbeStep::Settled(
            TargetStatus::Offline,
        ),
        outside::url_host_name(probe.target->url@) matches Some(h) ==> match ip::ip_of(h) {
            Some(known) => step is Ping && step->ip@ == known,
            None => step == ProbeStep::Settled(TargetStatus::Offline),
        },
{
    ip::ipv4_text_round_trip(address);
}

/// What is known of a target is the state that the probe gave, and an address
/// exactly where the target is a device that is on the network: one of its own.
pub proof fn info_tells_state_and_address(
    target: RelayTarget,
    scanner: NetworkScanner,
    status: TargetStatus,
    info: TargetInfo,
)
    requires
        call_ensures(probe_target, (&target, &scanner, status), info),
    ensures
        info.status == status,
        target !is Mac ==> info.ip is None,
        target is Mac && info.ip is Some ==> {
            &&& scanner.devices().contains_key(info.ip->0)
            &&& scanner.devices()[info.ip->0].mac_address is Some
            &&& text::lower(scanner.devices()[info.ip->0].mac_address->0@) == text::lower(
                target->mac@,
            )
        },
        target is Mac && info.ip is None ==> forall|a: Ipv4Addr| #[trigger]
            scanner.devices().contains_key(a) ==> scanner.devices()[a].mac_address is None
                || text::lower(scanner.devices()[a].mac_address->0@) != text::lower(target->mac@),
{
    if target is Mac && info.ip is None {
        assert forall|a: Ipv4Addr| #[trigger] scanner.devices().contains_key(
            a,
        ) implies scanner.devices()[a].mac_address is None || text::lower(
            scanner.devices()[a].mac_address->0@,
        ) != text::lower(target->mac@) by {
            assert(!network_scanner::is_address_of(scanner.devices(), target->mac@, a));
        }
    }
}

} // verus!
