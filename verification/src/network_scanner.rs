//! Device discovery: which hosts to ping, what the ARP table says of those
//! that answered, and the devices known after each scan.

use vstd::prelude::*;

use crate::app_config::copy_text;
use crate::assoc_map::{AddressMap, IpMap};
use crate::ip;
use crate::ip::{read_ip, IpAddr, IpView, Ipv4Addr};
use crate::text;
use crate::text::{
    chars_of, read_number, same_ignoring_case, same_text, split, split_words, string_of, CharClass,
};

verus! {

/// A point in time: seconds since the epoch and nanoseconds within them.
#[derive(Clone, Copy, Debug, PartialEq, Eq, Structural)]
pub struct Timestamp {
    pub secs: i64,
    pub nanos: u32,
}

impl Timestamp {
    /// One time is before another.
    pub open spec fn before(self, other: Timestamp) -> bool {
        self.secs < other.secs || (self.secs == other.secs && self.nanos < other.nanos)
    }

    /// Tells whether this time is before another.
    pub fn is_before(&self, other: &Timestamp) -> (r: bool)
        ensures
            r == self.before(*other),
    {
        self.secs < other.secs || (self.secs == other.secs && self.nanos < other.nanos)
    }
}

/// What is known of a device on the network.
#[derive(Debug)]
pub struct DeviceInfo {
    pub mac_address: Option<String>,
    pub discovered_at: Timestamp,
}

/// The device that was discovered last.
#[derive(Debug)]
pub struct LatestDevice {
    pub ip: Ipv4Addr,
    pub mac_address: Option<String>,
    pub discovered_at: Timestamp,
}

impl Clone for DeviceInfo {
    fn clone(&self) -> (r: Self)
        ensures
            r == *self,
    {
        DeviceInfo {
            mac_address: copy_text(&self.mac_address),
            discovered_at: self.discovered_at,
        }
    }
}

// ---------------------------------------------------------------------------
// The ARP table
// ---------------------------------------------------------------------------
/// An incomplete entry of the ARP table has this address.
pub open spec fn zero_mac() -> Seq<char> {
    "00:00:00:00:00:00"@
}

/// The IP address and MAC address of one line of the ARP table: its first and
/// fourth columns. Short lines, lines without an address and incomplete entries
/// have none.
pub open spec fn arp_row(line: Seq<char>) -> Option<(IpView, Seq<char>)> {
    let w = text::words(line);
    if w.len() >= 4 && ip::ip_of(w[0]) is Some && w[3] != zero_mac() {
        Some((ip::ip_of(w[0])->0, w[3]))
    } else {
        None
    }
}

/// The MAC addresses that lines give, by IP address; of several lines for
/// one address the last one counts.
pub open spec fn arp_rows(lines: Seq<Seq<char>>) -> Map<IpView, Seq<char>>
    decreases lines.len(),
{
    if lines.len() == 0 {
        Map::empty()
    } else {
        let front = arp_rows(lines.drop_last());
        match arp_row(lines.last()) {
            Some((address, mac)) => front.insert(address, mac),
            None => front,
        }
    }
}

/// The MAC addresses of an ARP table, whose first line is a heading.
pub open spec fn arp_table(content: Seq<char>) -> Map<IpView, Seq<char>> {
    arp_rows(text::pieces(content, CharClass::Only('\n')).skip(1))
}

/// A map of strings as a map of their characters.
pub open spec fn macs(m: Map<IpView, String>) -> Map<IpView, Seq<char>> {
    Map::new(|a: IpView| m.contains_key(a), |a: IpView| m[a]@)
}

/// Reads one line of the ARP table.
fn read_arp_row(line: &Vec<char>) -> (r: Option<(IpAddr, String)>)
    ensures
        match r {
            Some((address, mac)) => arp_row(line@) == Some((address@, mac@)),
            None => arp_row(line@) is None,
        },
{
    let cols = split_words(line);
    proof {
        assert(text::rows(cols@).len() == cols@.len());
    }
    if cols.len() < 4 {
        return None;
    }
    proof {
        assert(text::rows(cols@)[0] == cols@[0]@);
        assert(text::rows(cols@)[3] == cols@[3]@);
    }
    match read_ip(&cols[0]) {
        Some(address) => {
            let mac = string_of(&cols[3]);
            if same_text(mac.as_str(), "00:00:00:00:00:00") {
                None
            } else {
                Some((address, mac))
            }
        },
        None => None,
    }
}

/// Reads the MAC addresses by IP address from the text of the ARP table;
/// there are none where the table could not be read.
pub fn read_arp_table(content: Option<&str>) -> (r: AddressMap<String>)
    ensures
        macs(r@) == match content {
            Some(c) => arp_table(c@),
            None => Map::empty(),
        },
{
    let mut table: AddressMap<String> = AddressMap::new();
    proof {
        assert(macs(table@) =~= Map::empty());
    }
    if let Some(c) = content {
        let lines = split(&chars_of(c), &CharClass::Only('\n'));
        let ghost all = text::pieces(c@, CharClass::Only('\n'));
        proof {
            text::lemma_pieces_nonempty(c@, CharClass::Only('\n'));
            assert(text::rows(lines@).len() == lines@.len());
            assert(all.skip(1).take(0) == Seq::<Seq<char>>::empty());
        }
        let mut i: usize = 1;
        while i < lines.len()
            invariant
                1 <= i <= lines@.len(),
                all == text::rows(lines@),
                macs(table@) == arp_rows(all.skip(1).take(i - 1)),
            decreases lines.len() - i,
        {
            proof {
                assert(all.skip(1).take(i as int).drop_last() == all.skip(1).take(i - 1));
                assert(all.skip(1).take(i as int).last() == lines@[i as int]@);
            }
            if let Some((address, mac)) = read_arp_row(&lines[i]) {
                let ghost before = table@;
                table.insert(address, mac);
                proof {
                    assert(macs(table@) =~= macs(before).insert(address@, mac@));
                }
            }
            i += 1;
        }
        proof {
            assert(all.skip(1).take(all.len() - 1) == all.skip(1));
        }
    }
    table
}

// ---------------------------------------------------------------------------
// The hosts to ping
// ---------------------------------------------------------------------------
/// A piece of a network base that is an octet: digits with a value of at most
/// 255.
pub open spec fn is_octet(p: Seq<char>) -> bool {
    text::number_upto(p, 255) is Some
}

/// The octets of a network base such as "192.168.1": three of them with dots
/// between them.
pub open spec fn base_octets(network_base: Seq<char>) -> Option<Seq<u8>> {
    let ps = text::pieces(network_base, CharClass::Only('.'));
    if ps.len() == 3 && is_octet(ps[0]) && is_octet(ps[1]) && is_octet(ps[2]) {
        Some(Seq::new(3, |i: int| text::number_upto(ps[i], 255)->0 as u8))
    } else {
        None
    }
}

/// The host with a number in the network with three leading octets.
pub open spec fn host_in(base: Seq<u8>, host: u8) -> Ipv4Addr {
    Ipv4Addr { a: base[0], b: base[1], c: base[2], d: host }
}

/// Reads the octets of a network base.
fn read_base(network_base: &str) -> (r: Option<[u8; 3]>)
    ensures
        match r {
            Some(base) => base_octets(network_base@) == Some(base@),
            None => base_octets(network_base@) is None,
        },
{
    let parts = split(&chars_of(network_base), &CharClass::Only('.'));
    let ghost ps = text::rows(parts@);
    proof {
        assert(ps.len() == parts@.len());
    }
    if parts.len() != 3 {
        return None;
    }
    proof {
        assert(ps[0] == parts@[0]@ && ps[1] == parts@[1]@ && ps[2] == parts@[2]@);
    }
    match (read_number(&parts[0], 255), read_number(&parts[1], 255), read_number(&parts[2], 255)) {
        (Some(a), Some(b), Some(c)) => {
            let base: [u8; 3] = [a as u8, b as u8, c as u8];
            proof {
                assert(base@ == Seq::new(3, |i: int| text::number_upto(ps[i], 255)->0 as u8));
            }
            Some(base)
        },
        _ => None,
    }
}

/// The hosts that a scan of a network pings: numbers 2 to 254, in order.
/// There are none to ping where the network base is not three octets.
pub fn scan_hosts(network_base: &str) -> (r: Option<Vec<Ipv4Addr>>)
    ensures
        match r {
            Some(hosts) => base_octets(network_base@) is Some && hosts@ == Seq::new(
                253,
                |i: int| host_in(base_octets(network_base@)->0, (i + 2) as u8),
            ),
            None => base_octets(network_base@) is None,
        },
{
    let base = match read_base(network_base) {
        Some(b) => b,
        None => {
            return None;
        },
    };
    let mut hosts: Vec<Ipv4Addr> = Vec::new();
    let mut d: u8 = 2;
    while d < 255
        invariant
            2 <= d <= 255,
            base@.len() == 3,
            hosts@ == Seq::new((d - 2) as nat, |i: int| host_in(base@, (i + 2) as u8)),
        decreases 255 - d,
    {
        let ghost before = hosts@;
        hosts.push(Ipv4Addr { a: base[0], b: base[1], c: base[2], d });
        proof {
            assert(hosts@ =~= Seq::new((d - 1) as nat, |i: int| host_in(base@, (i + 2) as u8)));
        }
        d += 1;
    }
    Some(hosts)
}

// ---------------------------------------------------------------------------
// The result of one scan
// ---------------------------------------------------------------------------
/// A host answered.
pub open spec fn answered(replies: Seq<(Ipv4Addr, bool)>, host: Ipv4Addr) -> bool {
    replies.contains((host, true))
}

/// What one scan finds: the hosts that answered, each with the MAC address
/// that the ARP table gives it, discovered now.
pub open spec fn found(
    replies: Seq<(Ipv4Addr, bool)>,
    arp: Map<IpView, String>,
    now: Timestamp,
) -> Map<Ipv4Addr, DeviceInfo> {
    Map::new(
        |a: Ipv4Addr| answered(replies, a),
        |a: Ipv4Addr|
            DeviceInfo {
                mac_address: if arp.contains_key(IpView::V4(a)) {
                    Some(arp[IpView::V4(a)])
                } else {
                    None
                },
                discovered_at: now,
            },
    )
}

/// Makes the result of a scan from what the hosts answered.
pub fn scan_result(
    replies: &Vec<(Ipv4Addr, bool)>,
    arp: &AddressMap<String>,
    now: Timestamp,
) -> (r: IpMap<DeviceInfo>)
    ensures
        r@ == found(replies@, arp@, now),
{
    let mut out: IpMap<DeviceInfo> = IpMap::new();
    let mut i: usize = 0;
    proof {
        assert(out@ =~= found(replies@.take(0), arp@, now));
    }
    while i < replies.len()
        invariant
            i <= replies@.len(),
            out@ == found(replies@.take(i as int), arp@, now),
        decreases replies.len() - i,
    {
        let (host, alive) = replies[i];
        let ghost seen = replies@.take(i as int);
        let ghost next = replies@.take(i + 1);
        let ghost before = out@;
        proof {
            assert(next == seen.push((host, alive)));
            assert forall|a: Ipv4Addr| #[trigger] answered(next, a) == (answered(seen, a) || (alive
                && a == host)) by {
                if answered(seen, a) {
                    let k = choose|k: int| 0 <= k < seen.len() && seen[k] == (a, true);
                    assert(next[k] == (a, true));
                }
                if alive && a == host {
                    assert(next[i as int] == (a, true));
                }
                if answered(next, a) {
                    let k = choose|k: int| 0 <= k < next.len() && next[k] == (a, true);
                    if k < i {
                        assert(seen[k] == (a, true));
                    }
                }
            }
        }
        if alive {
            let mac_address = match arp.get(&IpAddr::V4(host)) {
                Some(m) => Some(m.clone()),
                None => None,
            };
            out.insert(host, DeviceInfo { mac_address, discovered_at: now });
        }
        proof {
            assert(out@ =~= found(next, arp@, now));
        }
        i += 1;
    }
    proof {
        assert(replies@.take(replies@.len() as int) == replies@);
    }
    out
}

// ---------------------------------------------------------------------------
// The devices across scans
// ---------------------------------------------------------------------------
/// The devices of the last completed scan and the device discovered last.
pub struct NetworkScanner {
    devices: IpMap<DeviceInfo>,
    latest: Option<LatestDevice>,
    network_base: String,
}

/// An earlier and a later sighting at one address are of the same device,
/// unless both name a MAC address and the two differ.
pub open spec fn same_device(earlier: DeviceInfo, later: DeviceInfo) -> bool {
    match (earlier.mac_address, later.mac_address) {
        (Some(a), Some(b)) => a@ == b@,
        _ => true,
    }
}

/// What is known of an address after a scan found it: a device that was there
/// before keeps the time of its discovery, and its MAC address where the scan
/// did not learn it.
pub open spec fn carried(known: Map<Ipv4Addr, DeviceInfo>, address: Ipv4Addr, new: DeviceInfo)
    -> DeviceInfo {
    if known.contains_key(address) && same_device(known[address], new) {
        DeviceInfo {
            mac_address: if new.mac_address is None {
                known[address].mac_address
            } else {
                new.mac_address
            },
            discovered_at: known[address].discovered_at,
        }
    } else {
        new
    }
}

/// The devices after a scan: those that it found, and no others.
pub open spec fn merged(known: Map<Ipv4Addr, DeviceInfo>, scan: Map<Ipv4Addr, DeviceInfo>) -> Map<
    Ipv4Addr,
    DeviceInfo,
> {
    Map::new(|a: Ipv4Addr| scan.contains_key(a), |a: Ipv4Addr| carried(known, a, scan[a]))
}

/// A device is the one at an address in a map.
pub open spec fn is_entry(l: LatestDevice, devices: Map<Ipv4Addr, DeviceInfo>) -> bool {
    &&& devices.contains_key(l.ip)
    &&& l.mac_address == devices[l.ip].mac_address
    &&& l.discovered_at == devices[l.ip].discovered_at
}

/// No device was discovered after the given time.
pub open spec fn none_after(devices: Map<Ipv4Addr, DeviceInfo>, t: Timestamp) -> bool {
    forall|a: Ipv4Addr| #[trigger]
        devices.contains_key(a) ==> !t.before(devices[a].discovered_at)
}

/// The device discovered last after a scan left these devices: one with the
/// latest time of discovery, if that is later than what was known before;
/// which one of several with that time is open.
pub open spec fn latest_after(
    previous: Option<LatestDevice>,
    devices: Map<Ipv4Addr, DeviceInfo>,
    next: Option<LatestDevice>,
) -> bool {
    let stale = match previous {
        Some(l) => none_after(devices, l.discovered_at),
        None => forall|a: Ipv4Addr| !#[trigger] devices.contains_key(a),
    };
    if stale {
        next == previous
    } else {
        next matches Some(l) && is_entry(l, devices) && none_after(devices, l.discovered_at)
    }
}

/// A device has a MAC address, up to the case of its letters.
pub open spec fn has_mac(info: DeviceInfo, mac: Seq<char>) -> bool {
    info.mac_address matches Some(m) && text::lower(m@) == text::lower(mac)
}

/// An address belongs to a device with a MAC address.
pub open spec fn is_address_of(
    devices: Map<Ipv4Addr, DeviceInfo>,
    mac: Seq<char>,
    address: Ipv4Addr,
) -> bool {
    devices.contains_key(address) && has_mac(devices[address], mac)
}

/// A device with a MAC address is on the network.
pub open spec fn on_network(devices: Map<Ipv4Addr, DeviceInfo>, mac: Seq<char>) -> bool {
    exists|address: Ipv4Addr| is_address_of(devices, mac, address)
}

/// The first of some addresses that belongs to a device with a MAC address.
pub open spec fn first_address_of(
    addresses: Seq<Ipv4Addr>,
    devices: Map<Ipv4Addr, DeviceInfo>,
    mac: Seq<char>,
) -> Option<Ipv4Addr>
    decreases addresses.len(),
{
    if addresses.len() == 0 {
        None
    } else if is_address_of(devices, mac, addresses[0]) {
        Some(addresses[0])
    } else {
        first_address_of(addresses.drop_first(), devices, mac)
    }
}

/// Tells whether two sightings are of the same device.
pub fn is_same_device(earlier: &DeviceInfo, later: &DeviceInfo) -> (r: bool)
    ensures
        r == same_device(*earlier, *later),
{
    match (&earlier.mac_address, &later.mac_address) {
        (Some(a), Some(b)) => same_text(a.as_str(), b.as_str()),
        _ => true,
    }
}

/// Combines what was known of an address with what a scan found there.
fn carry(known: &IpMap<DeviceInfo>, address: Ipv4Addr, new: &DeviceInfo) -> (r: DeviceInfo)
    ensures
        r == carried(known@, address, *new),
{
    match known.get(&address) {
        Some(existing) => if is_same_device(existing, new) {
            let mac_address = if new.mac_address.is_none() {
                copy_text(&existing.mac_address)
            } else {
                copy_text(&new.mac_address)
            };
            DeviceInfo { mac_address, discovered_at: existing.discovered_at }
        } else {
            new.clone()
        },
        None => new.clone(),
    }
}

/// Combines the devices known with those that a scan found.
pub fn merge_devices(known: &IpMap<DeviceInfo>, scan: &IpMap<DeviceInfo>) -> (r: IpMap<DeviceInfo>)
    ensures
        r@ == merged(known@, scan@),
{
    let mut out: IpMap<DeviceInfo> = IpMap::new();
    let n: usize = scan.len();
    let mut i: usize = 0;
    while i < n
        invariant
            i <= n == scan.keys().len(),
            scan.keys().to_set() == scan@.dom(),
            forall|a: Ipv4Addr| #[trigger]
                out@.contains_key(a) <==> scan.keys().take(i as int).contains(a),
            forall|a: Ipv4Addr| #[trigger]
                out@.contains_key(a) ==> scan@.contains_key(a) && out@[a] == carried(
                    known@,
                    a,
                    scan@[a],
                ),
        decreases n - i,
    {
        let (address, info) = scan.entry(i);
        let ghost before = out@;
        proof {
            assert(scan.keys().take(i + 1) == scan.keys().take(i as int).push(*address));
            assert forall|a: Ipv4Addr| #[trigger]
                scan.keys().take(i + 1).contains(a) == (scan.keys().take(i as int).contains(a) || a
                    == *address) by {
                let next = scan.keys().take(i + 1);
                let seen = scan.keys().take(i as int);
                if seen.contains(a) {
                    let k = choose|k: int| 0 <= k < seen.len() && seen[k] == a;
                    assert(next[k] == a);
                }
                if a == *address {
                    assert(next[i as int] == a);
                }
                if next.contains(a) {
                    let k = choose|k: int| 0 <= k < next.len() && next[k] == a;
                    if k < i {
                        assert(seen[k] == a);
                    }
                }
            }
        }
        out.insert(*address, carry(known, *address, info));
        proof {
            assert forall|a: Ipv4Addr| #[trigger] out@.contains_key(a) <==> scan.keys().take(
                i + 1,
            ).contains(a) by {
                assert(out@.contains_key(a) == (before.contains_key(a) || a == *address));
            }
        }
        i += 1;
    }
    proof {
        assert(scan.keys().take(n as int) == scan.keys());
        assert forall|a: Ipv4Addr| out@.contains_key(a) == scan@.contains_key(a) by {
            assert(scan.keys().to_set().contains(a) == scan.keys().contains(a));
        }
        assert(out@ =~= merged(known@, scan@));
    }
    out
}

/// Finds a device with the latest time of discovery, if there is any device.
fn newest(devices: &IpMap<DeviceInfo>) -> (r: Option<LatestDevice>)
    ensures
        match r {
            Some(l) => is_entry(l, devices@) && none_after(devices@, l.discovered_at),
            None => forall|a: Ipv4Addr| !#[trigger] devices@.contains_key(a),
        },
{
    let n: usize = devices.len();
    let mut best: Option<LatestDevice> = None;
    let mut i: usize = 0;
    while i < n
        invariant
            i <= n == devices.keys().len(),
            devices.keys().to_set() == devices@.dom(),
            i > 0 ==> best is Some,
            best matches Some(l) ==> is_entry(l, devices@) && forall|k: int|
                0 <= k < i ==> !l.discovered_at.before(
                    devices@[#[trigger] devices.keys()[k]].discovered_at,
                ),
        decreases n - i,
    {
        let (address, info) = devices.entry(i);
        let better = match &best {
            Some(l) => !info.discovered_at.is_before(&l.discovered_at),
            None => true,
        };
        if better {
            best = Some(
                LatestDevice {
                    ip: *address,
                    mac_address: copy_text(&info.mac_address),
                    discovered_at: info.discovered_at,
                },
            );
        }
        i += 1;
    }
    proof {
        assert forall|a: Ipv4Addr| #[trigger] devices@.contains_key(a) implies exists|k: int|
            0 <= k < n && devices.keys()[k] == a by {
            assert(devices.keys().to_set().contains(a));
            assert(devices.keys().contains(a));
        }
    }
    best
}

impl NetworkScanner {
    /// The devices of the last completed scan.
    pub closed spec fn devices(self) -> Map<Ipv4Addr, DeviceInfo> {
        self.devices@
    }

    /// The device discovered last.
    pub closed spec fn latest(self) -> Option<LatestDevice> {
        self.latest
    }

    /// The network that is scanned.
    pub closed spec fn base(self) -> Seq<char> {
        self.network_base@
    }

    /// The address at which a lookup finds a device with a MAC address. Which
    /// one of several it is, is open; it stays the same until the next scan.
    pub closed spec fn address_of(self, mac: Seq<char>) -> Option<Ipv4Addr> {
        first_address_of(self.devices.keys(), self.devices@, mac)
    }

    /// A scanner before its first scan.
    pub fn new(network_base: String) -> (r: Self)
        ensures
            r.devices() == Map::<Ipv4Addr, DeviceInfo>::empty(),
            r.latest() is None,
            r.base() == network_base@,
    {
        NetworkScanner { devices: IpMap::new(), latest: None, network_base }
    }

    /// Takes in the result of a completed scan.
    pub fn complete_scan(&mut self, scan: &IpMap<DeviceInfo>)
        ensures
            final(self).devices() == merged(old(self).devices(), scan@),
            latest_after(old(self).latest(), final(self).devices(), final(self).latest()),
            final(self).base() == old(self).base(),
    {
        let devices = merge_devices(&self.devices, scan);
        if let Some(candidate) = newest(&devices) {
            let is_newer = match &self.latest {
                Some(l) => l.discovered_at.is_before(&candidate.discovered_at),
                None => true,
            };
            proof {
                assert(devices@.contains_key(candidate.ip));
            }
            if is_newer {
                self.latest = Some(candidate);
            } else {
                proof {
                    let l = self.latest->0;
                    assert(none_after(devices@, l.discovered_at));
                }
            }
        }
        self.devices = devices;
    }

    /// The devices of the last completed scan.
    pub fn get_devices(&self) -> (r: &IpMap<DeviceInfo>)
        ensures
            r@ == self.devices(),
    {
        &self.devices
    }

    /// Finds the current address of a device by its MAC address, in any case.
    /// Where several devices have that MAC address, it is one of theirs, and
    /// the same one at each lookup until the next scan.
    pub fn get_ip_by_mac(&self, mac: &str) -> (r: Option<Ipv4Addr>)
        ensures
            r == self.address_of(mac@),
            match r {
                Some(address) => is_address_of(self.devices(), mac@, address),
                None => !on_network(self.devices(), mac@),
            },
    {
        let n: usize = self.devices.len();
        let ghost all = self.devices.keys();
        let mut i: usize = 0;
        proof {
            assert(all.skip(0) == all);
        }
        while i < n
            invariant
                i <= n == self.devices.keys().len(),
                all == self.devices.keys(),
                self.address_of(mac@) == first_address_of(
                    all.skip(i as int),
                    self.devices@,
                    mac@,
                ),
                self.devices.keys().to_set() == self.devices@.dom(),
                forall|k: int|
                    0 <= k < i ==> !has_mac(
                        self.devices@[#[trigger] self.devices.keys()[k]],
                        mac@,
                    ),
            decreases n - i,
        {
            let (address, info) = self.devices.entry(i);
            proof {
                assert(all.skip(i as int)[0] == all[i as int]);
                assert(all.skip(i as int).drop_first() == all.skip(i + 1));
            }
            if let Some(m) = &info.mac_address {
                if same_ignoring_case(m.as_str(), mac) {
                    return Some(*address);
                }
            }
            i += 1;
        }
        proof {
            assert forall|a: Ipv4Addr| !is_address_of(self.devices(), mac@, a) by {
                if self.devices@.contains_key(a) {
                    assert(self.devices.keys().to_set().contains(a));
                    let k = choose|k: int|
                        0 <= k < self.devices.keys().len() && self.devices.keys()[k] == a;
                    assert(!has_mac(self.devices@[self.devices.keys()[k]], mac@));
                }
            }
        }
        None
    }

    /// The device discovered last, across all scans.
    pub fn get_latest(&self) -> (r: &Option<LatestDevice>)
        ensures
            *r == self.latest(),
    {
        &self.latest
    }

    /// The network that is scanned.
    pub fn network_base(&self) -> (r: &str)
        ensures
            r@ == self.base(),
    {
        self.network_base.as_str()
    }
}

// ---------------------------------------------------------------------------
// Laws
// ---------------------------------------------------------------------------
/// After a scan exactly the hosts that it found are known.
pub proof fn scan_decides_who_is_present(
    known: Map<Ipv4Addr, DeviceInfo>,
    scan: Map<Ipv4Addr, DeviceInfo>,
)
    ensures
        merged(known, scan).dom() =~= scan.dom(),
{
}

/// A device that is seen again keeps the time of its discovery and the MAC
/// address learnt earlier.
pub proof fn known_devices_keep_their_discovery(
    known: Map<Ipv4Addr, DeviceInfo>,
    scan: Map<Ipv4Addr, DeviceInfo>,
    address: Ipv4Addr,
)
    requires
        known.contains_key(address),
        scan.contains_key(address),
        same_device(known[address], scan[address]),
    ensures
        merged(known, scan)[address].discovered_at == known[address].discovered_at,
        scan[address].mac_address is None ==> merged(known, scan)[address].mac_address
            == known[address].mac_address,
        scan[address].mac_address is Some ==> merged(known, scan)[address].mac_address
            == scan[address].mac_address,
{
}

/// The devices after some scans.
pub open spec fn devices_after(scans: Seq<Map<Ipv4Addr, DeviceInfo>>) -> Map<Ipv4Addr, DeviceInfo>
    decreases scans.len(),
{
    if scans.len() == 0 {
        Map::empty()
    } else {
        merged(devices_after(scans.drop_last()), scans.last())
    }
}

/// A device that every scan since some scan found, and the scan before did not,
/// counts as discovered by the first of these scans, however many there are.
pub proof fn presence_counts_from_its_first_scan(
    scans: Seq<Map<Ipv4Addr, DeviceInfo>>,
    first: int,
    address: Ipv4Addr,
    mac: Seq<char>,
)
    requires
        0 <= first < scans.len(),
        first > 0 ==> !scans[first - 1].contains_key(address),
        forall|i: int|
            first <= i < scans.len() ==> {
                &&& (#[trigger] scans[i]).contains_key(address)
                &&& scans[i][address].mac_address matches Some(m) ==> m@ == mac
            },
    ensures
        devices_after(scans).contains_key(address),
        devices_after(scans)[address].discovered_at == scans[first][address].discovered_at,
        devices_after(scans)[address].mac_address matches Some(m) ==> m@ == mac,
    decreases scans.len(),
{
    let front = scans.drop_last();
    let n = scans.len() - 1;
    assert(scans[n].contains_key(address));
    assert(devices_after(scans) == merged(devices_after(front), scans[n]));
    assert(devices_after(scans)[address] == carried(
        devices_after(front),
        address,
        scans[n][address],
    ));
    if first == n {
        if n > 0 {
            assert(front.last() == scans[n - 1]);
        }
        assert(!devices_after(front).contains_key(address));
    } else {
        assert forall|i: int| first <= i < front.len() implies {
            &&& (#[trigger] front[i]).contains_key(address)
            &&& front[i][address].mac_address matches Some(m) ==> m@ == mac
        } by {
            assert(front[i] == scans[i]);
        }
        presence_counts_from_its_first_scan(front, first, address, mac);
        assert(same_device(devices_after(front)[address], scans[n][address]));
    }
}

/// An address that changed hands counts as newly discovered.
pub proof fn reassigned_address_is_new(
    known: Map<Ipv4Addr, DeviceInfo>,
    scan: Map<Ipv4Addr, DeviceInfo>,
    address: Ipv4Addr,
)
    requires
        scan.contains_key(address),
        known.contains_key(address) ==> !same_device(known[address], scan[address]),
    ensures
        merged(known, scan)[address] == scan[address],
{
}

/// Scanning twice with the same result changes nothing the second time.
pub proof fn repeated_scan_changes_nothing(
    known: Map<Ipv4Addr, DeviceInfo>,
    scan: Map<Ipv4Addr, DeviceInfo>,
)
    ensures
        merged(merged(known, scan), scan) =~= merged(known, scan),
{
    assert forall|a: Ipv4Addr| #[trigger] scan.contains_key(a) implies carried(
        merged(known, scan),
        a,
        scan[a],
    ) == carried(known, a, scan[a]) by {}
}

/// The device discovered last is never replaced by one discovered earlier or
/// at the same time, and never forgotten.
pub proof fn latest_device_never_goes_back(
    previous: Option<LatestDevice>,
    devices: Map<Ipv4Addr, DeviceInfo>,
    next: Option<LatestDevice>,
)
    requires
        latest_after(previous, devices, next),
        previous is Some,
    ensures
        next is Some,
        next == previous || previous->0.discovered_at.before(next->0.discovered_at),
{
    let t = previous->0.discovered_at;
    if !none_after(devices, t) {
        let a = choose|a: Ipv4Addr| #[trigger]
            devices.contains_key(a) && t.before(devices[a].discovered_at);
        assert(!next->0.discovered_at.before(devices[a].discovered_at));
    }
}

/// After a scan no device was discovered after the one discovered last, and
/// there is none discovered last only while there is no device.
pub proof fn latest_device_is_the_newest(
    previous: Option<LatestDevice>,
    devices: Map<Ipv4Addr, DeviceInfo>,
    next: Option<LatestDevice>,
)
    requires
        latest_after(previous, devices, next),
    ensures
        match next {
            Some(l) => none_after(devices, l.discovered_at),
            None => forall|a: Ipv4Addr| !#[trigger] devices.contains_key(a),
        },
{
}

/// A scan makes a device the one discovered last exactly when it was discovered
/// at the latest time of all and that is after what was known before; `newest`
/// is that time.
pub proof fn latest_device_follows_the_scan(
    previous: Option<LatestDevice>,
    devices: Map<Ipv4Addr, DeviceInfo>,
    next: Option<LatestDevice>,
    address: Ipv4Addr,
    newest: Timestamp,
)
    requires
        latest_after(previous, devices, next),
        devices.contains_key(address),
        devices[address].discovered_at == newest,
        none_after(devices, newest),
    ensures
        if previous is None || previous->0.discovered_at.before(newest) {
            next matches Some(l) && is_entry(l, devices) && l.discovered_at == newest
        } else {
            next == previous
        },
{
    if previous is None || previous->0.discovered_at.before(newest) {
        let l = next->0;
        assert(devices.contains_key(l.ip));
        assert(!newest.before(l.discovered_at));
        assert(!l.discovered_at.before(devices[address].discovered_at));
    } else {
        let t = previous->0.discovered_at;
        assert forall|a: Ipv4Addr| #[trigger] devices.contains_key(a) implies !t.before(
            devices[a].discovered_at,
        ) by {
            assert(!newest.before(devices[a].discovered_at));
        }
        assert(none_after(devices, t));
    }
}

/// A scan that finds nothing leaves the device discovered last as it is.
pub proof fn empty_scan_keeps_the_latest_device(
    previous: Option<LatestDevice>,
    next: Option<LatestDevice>,
)
    requires
        latest_after(previous, Map::<Ipv4Addr, DeviceInfo>::empty(), next),
    ensures
        next == previous,
{
}

/// Over any number of scans the device discovered last is never forgotten, and
/// the time of its discovery never goes back.
pub proof fn latest_device_never_goes_back_over_scans(
    latests: Seq<Option<LatestDevice>>,
    devices: Seq<Map<Ipv4Addr, DeviceInfo>>,
    i: int,
    j: int,
)
    requires
        devices.len() == latests.len(),
        forall|k: int|
            0 < k < latests.len() ==> latest_after(
                latests[k - 1],
                devices[k],
                #[trigger] latests[k],
            ),
        0 <= i <= j < latests.len(),
        latests[i] is Some,
    ensures
        latests[j] is Some,
        !latests[j]->0.discovered_at.before(latests[i]->0.discovered_at),
    decreases j - i,
{
    if i < j {
        latest_device_never_goes_back_over_scans(latests, devices, i, j - 1);
        assert(latest_after(latests[j - 1], devices[j], latests[j]));
        latest_device_never_goes_back(latests[j - 1], devices[j], latests[j]);
    }
}

/// Looking a device up does not depend on the case of its MAC address.
pub proof fn lookup_ignores_case(
    devices: Map<Ipv4Addr, DeviceInfo>,
    mac: Seq<char>,
    other: Seq<char>,
    address: Ipv4Addr,
)
    requires
        text::lower(mac) == text::lower(other),
    ensures
        is_address_of(devices, mac, address) == is_address_of(devices, other, address),
        on_network(devices, mac) == on_network(devices, other),
{
    assert forall|a: Ipv4Addr| is_address_of(devices, mac, a) == is_address_of(
        devices,
        other,
        a,
    ) by {}
}

/// A lookup finds the same device whatever the case of the MAC address.
pub proof fn lookups_agree_in_any_case(scanner: NetworkScanner, mac: Seq<char>, other: Seq<char>)
    requires
        text::lower(mac) == text::lower(other),
    ensures
        scanner.address_of(mac) == scanner.address_of(other),
{
    lemma_first_address(scanner.devices.keys(), scanner.devices@, mac, other);
}

/// The first address of a device does not depend on the case of the MAC
/// address.
proof fn lemma_first_address(
    addresses: Seq<Ipv4Addr>,
    devices: Map<Ipv4Addr, DeviceInfo>,
    mac: Seq<char>,
    other: Seq<char>,
)
    requires
        text::lower(mac) == text::lower(other),
    ensures
        first_address_of(addresses, devices, mac) == first_address_of(addresses, devices, other),
    decreases addresses.len(),
{
    if addresses.len() > 0 {
        lemma_first_address(addresses.drop_first(), devices, mac, other);
    }
}

/// The dotted form of three octets is read as the network base that it writes.
pub proof fn written_base_is_read(a: u8, b: u8, c: u8)
    ensures
        base_octets(
            text::decimal(a as nat) + seq!['.'] + text::decimal(b as nat) + seq!['.']
                + text::decimal(c as nat),
        ) == Some(seq![a, b, c]),
{
    let dot = CharClass::Only('.');
    let x = text::decimal(a as nat);
    let y = text::decimal(b as nat);
    let z = text::decimal(c as nat);
    lemma_no_dot(a as nat);
    lemma_no_dot(b as nat);
    lemma_no_dot(c as nat);
    text::lemma_pieces_whole(x, dot);
    text::lemma_pieces_join(x, '.', y, dot);
    text::lemma_pieces_join(x + seq!['.'] + y, '.', z, dot);
    let ps = text::pieces(x + seq!['.'] + y + seq!['.'] + z, dot);
    assert(ps == seq![x, y, z]);
    assert(Seq::new(3, |i: int| text::number_upto(ps[i], 255)->0 as u8) == seq![a, b, c]);
}

/// A decimal number holds no dot and reads as itself.
proof fn lemma_no_dot(n: nat)
    ensures
        text::decimal(n).len() > 0,
        text::all_digits(text::decimal(n)),
        text::digits_value(text::decimal(n)) == n,
        forall|i: int| 0 <= i < text::decimal(n).len() ==> #[trigger] text::decimal(n)[i] != '.',
{
    text::lemma_decimal(n);
    assert forall|i: int| 0 <= i < text::decimal(n).len() implies #[trigger] text::decimal(n)[i]
        != '.' by {
        assert(text::is_digit(text::decimal(n)[i]));
    }
}

/// A scan pings the hosts numbered 2 to 254 of the network, each once, and no
/// others.
pub proof fn scan_covers_the_network(base: Seq<u8>, host: Ipv4Addr)
    requires
        base.len() == 3,
    ensures
        Seq::new(253, |i: int| host_in(base, (i + 2) as u8)).no_duplicates(),
        Seq::new(253, |i: int| host_in(base, (i + 2) as u8)).contains(host) <==> (host.a == base[0]
            && host.b == base[1] && host.c == base[2] && 2 <= host.d <= 254),
{
    let hosts = Seq::new(253, |i: int| host_in(base, (i + 2) as u8));
    assert forall|i: int, j: int| 0 <= i < 253 && 0 <= j < 253 && i != j implies hosts[i]
        != hosts[j] by {
        assert(hosts[i].d == i + 2);
        assert(hosts[j].d == j + 2);
    }
    if host.a == base[0] && host.b == base[1] && host.c == base[2] && 2 <= host.d <= 254 {
        assert(hosts[host.d - 2] == host);
    }
    if hosts.contains(host) {
        let i = choose|i: int| 0 <= i < 253 && hosts[i] == host;
        assert(hosts[i].d == i + 2);
    }
}

/// Times compare by their seconds, and by their nanoseconds within a second.
pub proof fn times_compare_as_numbers(a: Timestamp, b: Timestamp, r: bool)
    requires
        call_ensures(Timestamp::is_before, (&a, &b), r),
    ensures
        r <==> a.secs * 0x1_0000_0000 + a.nanos < b.secs * 0x1_0000_0000 + b.nanos,
        r == a.before(b),
{
}

/// A line of the ARP table below its heading, with at least four words, the
/// first of them an IP address and the fourth anything but the address of an
/// incomplete entry, gives that IP address the fourth word as its MAC address,
/// where no later such line is of that IP address.
pub proof fn arp_line_gives_its_address_a_mac(
    content: &str,
    table: AddressMap<String>,
    heading: Seq<char>,
    lines: Seq<Seq<char>>,
    i: int,
    address: IpView,
    lead: Seq<char>,
    columns: (Seq<char>, Seq<char>, Seq<char>, Seq<char>),
    gaps: (Seq<char>, Seq<char>, Seq<char>),
    rest: Seq<char>,
)
    requires
        call_ensures(read_arp_table, (Some(content),), table),
        content@ == text::joined(seq![heading] + lines, '\n'),
        forall|k: int| 0 <= k < heading.len() ==> #[trigger] heading[k] != '\n',
        forall|j: int, k: int|
            0 <= j < lines.len() && 0 <= k < lines[j].len() ==> #[trigger] lines[j][k] != '\n',
        0 <= i < lines.len(),
        lines[i] == lead + (columns.0 + gaps.0 + columns.1 + gaps.1 + columns.2 + gaps.2
            + columns.3 + rest),
        forall|k: int| 0 <= k < lead.len() ==> text::is_blank(#[trigger] lead[k]),
        text::is_word(columns.0) && text::is_word(columns.1) && text::is_word(columns.2)
            && text::is_word(columns.3),
        text::is_gap(gaps.0) && text::is_gap(gaps.1) && text::is_gap(gaps.2),
        rest.len() == 0 || text::is_blank(rest[0]),
        ip::ip_of(columns.0) == Some(address),
        columns.3 != "00:00:00:00:00:00"@,
        forall|j: int|
            i < j < lines.len() ==> (text::words(#[trigger] lines[j]).len() < 4 || ip::ip_of(
                text::words(lines[j])[0],
            ) != Some(address) || text::words(lines[j])[3] == "00:00:00:00:00:00"@),
    ensures
        table@.contains_key(address),
        table@[address]@ == columns.3,
{
    lemma_lines_of(content@, heading, lines);
    let line = columns.0 + gaps.0 + columns.1 + gaps.1 + columns.2 + gaps.2 + columns.3 + rest;
    lemma_columns(line, columns, gaps, rest);
    text::blanks_before_text_add_no_word(lead, line);
    assert(lines.take(lines.len() as int) == lines);
    lemma_row_stays(lines, i, lines.len() as int, address, columns.3);
    assert(macs(table@).contains_key(address));
}

/// The lines below the heading.
proof fn lemma_lines_of(content: Seq<char>, heading: Seq<char>, lines: Seq<Seq<char>>)
    requires
        content == text::joined(seq![heading] + lines, '\n'),
        forall|k: int| 0 <= k < heading.len() ==> #[trigger] heading[k] != '\n',
        forall|j: int, k: int|
            0 <= j < lines.len() && 0 <= k < lines[j].len() ==> #[trigger] lines[j][k] != '\n',
    ensures
        text::pieces(content, CharClass::Only('\n')).skip(1) == lines,
{
    let all = seq![heading] + lines;
    assert forall|j: int, k: int|
        0 <= j < all.len() && 0 <= k < all[j].len() implies #[trigger] all[j][k] != '\n' by {
        if j > 0 {
            assert(all[j] == lines[j - 1]);
            assert(lines[j - 1][k] != '\n');
        } else {
            assert(all[0] == heading);
            assert(heading[k] != '\n');
        }
    }
    text::joining_is_undone_by_splitting(all, '\n');
    assert(all.skip(1) == lines);
}

/// The first and fourth words of a line.
proof fn lemma_columns(
    line: Seq<char>,
    columns: (Seq<char>, Seq<char>, Seq<char>, Seq<char>),
    gaps: (Seq<char>, Seq<char>, Seq<char>),
    rest: Seq<char>,
)
    requires
        line == columns.0 + gaps.0 + columns.1 + gaps.1 + columns.2 + gaps.2 + columns.3 + rest,
        text::is_word(columns.0) && text::is_word(columns.1) && text::is_word(columns.2)
            && text::is_word(columns.3),
        text::is_gap(gaps.0) && text::is_gap(gaps.1) && text::is_gap(gaps.2),
        rest.len() == 0 || text::is_blank(rest[0]),
    ensures
        text::words(line).len() >= 4,
        text::words(line)[0] == columns.0,
        text::words(line)[3] == columns.3,
{
    let (a, b, c, d) = columns;
    let (x, y, z) = gaps;
    let fourth = d + rest;
    let third = c + z + fourth;
    let second = b + y + third;
    assert(line == a + x + second);
    text::word_before_text_is_its_first_word(a, x, second);
    text::word_before_text_is_its_first_word(b, y, third);
    text::word_before_text_is_its_first_word(c, z, fourth);
    if rest.len() == 0 {
        text::word_before_text_is_its_first_word(d, z, rest);
        assert(fourth == d);
    } else {
        let g = seq![rest[0]];
        let tail = rest.drop_first();
        text::word_before_text_is_its_first_word(d, g, tail);
        assert(fourth == d + g + tail);
    }
    let w = text::words(fourth);
    assert(w.len() >= 1 && w[0] == d);
    assert(text::words(line) == seq![a] + (seq![b] + (seq![c] + w)));
}

/// What a line gives stays until a later line of its address.
proof fn lemma_row_stays(lines: Seq<Seq<char>>, i: int, n: int, address: IpView, mac: Seq<char>)
    requires
        0 <= i < n <= lines.len(),
        text::words(lines[i]).len() >= 4,
        ip::ip_of(text::words(lines[i])[0]) == Some(address),
        text::words(lines[i])[3] == mac,
        mac != "00:00:00:00:00:00"@,
        forall|j: int|
            i < j < lines.len() ==> (text::words(#[trigger] lines[j]).len() < 4 || ip::ip_of(
                text::words(lines[j])[0],
            ) != Some(address) || text::words(lines[j])[3] == "00:00:00:00:00:00"@),
    ensures
        arp_rows(lines.take(n)).contains_key(address),
        arp_rows(lines.take(n))[address] == mac,
    decreases n,
{
    let t = lines.take(n);
    assert(t.drop_last() == lines.take(n - 1));
    assert(t.last() == lines[n - 1]);
    if i < n - 1 {
        lemma_row_stays(lines, i, n - 1, address, mac);
    }
}

/// Every entry of the table that is read comes from a line below the heading:
/// its address is the first word, its MAC address the fourth, which is not that
/// of an incomplete entry. Where there is no text there is no entry.
pub proof fn arp_entries_come_from_lines(
    content: Option<&str>,
    table: AddressMap<String>,
    address: IpView,
) -> (i: int)
    requires
        call_ensures(read_arp_table, (content,), table),
        table@.contains_key(address),
    ensures
        content is Some,
        ({
            let lines = text::pieces(content->0@, CharClass::Only('\n'));
            let w = text::words(lines[i]);
            &&& 1 <= i < lines.len()
            &&& w.len() >= 4
            &&& ip::ip_of(w[0]) == Some(address)
            &&& table@[address]@ == w[3]
            &&& w[3] != "00:00:00:00:00:00"@
        }),
{
    assert(macs(table@).contains_key(address));
    let all = text::pieces(content->0@, CharClass::Only('\n'));
    text::lemma_pieces_nonempty(content->0@, CharClass::Only('\n'));
    let k = lemma_row_of(all.skip(1), address);
    assert(all.skip(1)[k] == all[k + 1]);
    k + 1
}

/// The line that an entry comes from.
proof fn lemma_row_of(lines: Seq<Seq<char>>, address: IpView) -> (i: int)
    requires
        arp_rows(lines).contains_key(address),
    ensures
        0 <= i < lines.len(),
        text::words(lines[i]).len() >= 4,
        ip::ip_of(text::words(lines[i])[0]) == Some(address),
        arp_rows(lines)[address] == text::words(lines[i])[3],
        text::words(lines[i])[3] != "00:00:00:00:00:00"@,
    decreases lines.len(),
{
    let front = lines.drop_last();
    let n = lines.len() - 1;
    match arp_row(lines.last()) {
        Some((a, mac)) if a == address => {
            assert(lines[n] == lines.last());
            n
        },
        _ => {
            let i = lemma_row_of(front, address);
            assert(front[i] == lines[i]);
            i
        },
    }
}

/// A scan of the network that three numbers up to 255 write pings every host
/// numbered 2 to 254 once, and nothing else.
pub proof fn scan_pings_hosts_2_to_254(
    network_base: &str,
    hosts: Option<Vec<Ipv4Addr>>,
    x: Seq<char>,
    y: Seq<char>,
    z: Seq<char>,
    host: Ipv4Addr,
)
    requires
        call_ensures(scan_hosts, (network_base,), hosts),
        network_base@ == x + seq!['.'] + y + seq!['.'] + z,
        x.len() > 0 && y.len() > 0 && z.len() > 0,
        forall|k: int| 0 <= k < x.len() ==> '0' <= #[trigger] x[k] <= '9',
        forall|k: int| 0 <= k < y.len() ==> '0' <= #[trigger] y[k] <= '9',
        forall|k: int| 0 <= k < z.len() ==> '0' <= #[trigger] z[k] <= '9',
        text::digits_value(x) <= 255 && text::digits_value(y) <= 255 && text::digits_value(z)
            <= 255,
    ensures
        hosts is Some,
        hosts->0@.no_duplicates(),
        hosts->0@.contains(host) <==> host.a == text::digits_value(x) && host.b
            == text::digits_value(y) && host.c == text::digits_value(z) && 2 <= host.d <= 254,
{
    let dot = CharClass::Only('.');
    assert forall|k: int| 0 <= k < x.len() implies !dot.has(#[trigger] x[k]) && text::is_digit(
        x[k],
    ) by {
        assert('0' <= x[k] <= '9');
    }
    assert forall|k: int| 0 <= k < y.len() implies !dot.has(#[trigger] y[k]) && text::is_digit(
        y[k],
    ) by {
        assert('0' <= y[k] <= '9');
    }
    assert forall|k: int| 0 <= k < z.len() implies !dot.has(#[trigger] z[k]) && text::is_digit(
        z[k],
    ) by {
        assert('0' <= z[k] <= '9');
    }
    text::lemma_pieces_whole(x, dot);
    text::lemma_pieces_join(x, '.', y, dot);
    text::lemma_pieces_join(x + seq!['.'] + y, '.', z, dot);
    assert(text::pieces(network_base@, dot) == seq![x, y, z]);
    let base = seq![
        text::digits_value(x) as u8,
        text::digits_value(y) as u8,
        text::digits_value(z) as u8,
    ];
    assert(base_octets(network_base@) is Some);
    assert(base_octets(network_base@)->0 == base);
    scan_covers_the_network(base, host);
    assert(hosts->0@ == Seq::new(253, |i: int| host_in(base, (i + 2) as u8)));
}

/// Only text of three numbers with dots between them, each of digits only and
/// at most 255, names a network to scan.
pub proof fn only_three_octets_are_scanned(network_base: &str, hosts: Option<Vec<Ipv4Addr>>)
    requires
        call_ensures(scan_hosts, (network_base,), hosts),
        hosts is Some,
    ensures
        exists|x: Seq<char>, y: Seq<char>, z: Seq<char>|
            {
                &&& network_base@ == #[trigger] (x + seq!['.'] + y + seq!['.'] + z)
                &&& x.len() > 0 && y.len() > 0 && z.len() > 0
                &&& forall|k: int| 0 <= k < x.len() ==> '0' <= #[trigger] x[k] <= '9'
                &&& forall|k: int| 0 <= k < y.len() ==> '0' <= #[trigger] y[k] <= '9'
                &&& forall|k: int| 0 <= k < z.len() ==> '0' <= #[trigger] z[k] <= '9'
                &&& text::digits_value(x) <= 255 && text::digits_value(y) <= 255
                    && text::digits_value(z) <= 255
            },
{
    let s = network_base@;
    let ps = text::pieces(s, CharClass::Only('.'));
    text::splitting_undoes_joining(s, '.');
    let x = ps[0];
    let y = ps[1];
    let z = ps[2];
    let two = ps.drop_last();
    assert(two == seq![x, y] && two.drop_last() == seq![x]);
    assert(text::joined(two.drop_last(), '.') == x);
    assert(text::joined(two, '.') == x + seq!['.'] + y);
    assert(s == x + seq!['.'] + y + seq!['.'] + z);
    assert forall|k: int| 0 <= k < x.len() implies '0' <= #[trigger] x[k] <= '9' by {
        assert(text::is_digit(x[k]));
    }
    assert forall|k: int| 0 <= k < y.len() implies '0' <= #[trigger] y[k] <= '9' by {
        assert(text::is_digit(y[k]));
    }
    assert forall|k: int| 0 <= k < z.len() implies '0' <= #[trigger] z[k] <= '9' by {
        assert(text::is_digit(z[k]));
    }
}

/// A scan finds exactly the hosts that answered, each discovered at the time of
/// the scan and with the MAC address that the ARP table has for it.
pub proof fn scan_finds_who_answered(
    replies: Vec<(Ipv4Addr, bool)>,
    arp: AddressMap<String>,
    now: Timestamp,
    result: IpMap<DeviceInfo>,
    host: Ipv4Addr,
)
    requires
        call_ensures(scan_result, (&replies, &arp, now), result),
    ensures
        result@.contains_key(host) <==> exists|i: int|
            0 <= i < replies@.len() && #[trigger] replies@[i] == (host, true),
        result@.contains_key(host) ==> {
            &&& result@[host].discovered_at == now
            &&& arp@.contains_key(IpView::V4(host)) ==> result@[host].mac_address == Some(
                arp@[IpView::V4(host)],
            )
            &&& !arp@.contains_key(IpView::V4(host)) ==> result@[host].mac_address is None
        },
{
    if result@.contains_key(host) {
        let i = choose|i: int| 0 <= i < replies@.len() && replies@[i] == (host, true);
        assert(replies@[i] == (host, true));
    }
}

/// An address that was known with one MAC address and is found with a MAC
/// address of other text has the MAC address and the time of discovery of the
/// scan from then on: another device has it.
pub proof fn other_mac_text_is_another_device(
    scanner: &mut NetworkScanner,
    scan: IpMap<DeviceInfo>,
    address: Ipv4Addr,
    earlier: String,
    later: String,
)
    requires
        call_ensures(NetworkScanner::complete_scan, (scanner, &scan), ()),
        old(scanner).devices().contains_key(address),
        old(scanner).devices()[address].mac_address == Some(earlier),
        scan@.contains_key(address),
        scan@[address].mac_address == Some(later),
        earlier@ != later@,
    ensures
        final(scanner).devices().contains_key(address),
        final(scanner).devices()[address].mac_address == Some(later),
        final(scanner).devices()[address].discovered_at == scan@[address].discovered_at,
{
}

/// An address that was known, and of which nothing says that another device has
/// it now, keeps its time of discovery. It has the MAC address of the scan, or
/// that known before where the scan did not learn one.
pub proof fn same_mac_text_is_the_same_device(
    scanner: &mut NetworkScanner,
    scan: IpMap<DeviceInfo>,
    address: Ipv4Addr,
)
    requires
        call_ensures(NetworkScanner::complete_scan, (scanner, &scan), ()),
        old(scanner).devices().contains_key(address),
        scan@.contains_key(address),
        match (old(scanner).devices()[address].mac_address, scan@[address].mac_address) {
            (Some(earlier), Some(later)) => earlier@ == later@,
            _ => true,
        },
    ensures
        final(scanner).devices().contains_key(address),
        final(scanner).devices()[address].discovered_at
            == old(scanner).devices()[address].discovered_at,
        final(scanner).devices()[address].mac_address == match scan@[address].mac_address {
            Some(later) => Some(later),
            None => old(scanner).devices()[address].mac_address,
        },
{
}

/// An address that was not known is as the scan found it, and an address that
/// the scan did not find is not known any more. The network stays the same.
pub proof fn scan_brings_and_takes_addresses(
    scanner: &mut NetworkScanner,
    scan: IpMap<DeviceInfo>,
    address: Ipv4Addr,
)
    requires
        call_ensures(NetworkScanner::complete_scan, (scanner, &scan), ()),
    ensures
        final(scanner).devices().contains_key(address) <==> scan@.contains_key(address),
        scan@.contains_key(address) && !old(scanner).devices().contains_key(address)
            ==> final(scanner).devices()[address] == scan@[address],
        final(scanner).base() == old(scanner).base(),
{
}

/// After a scan the device discovered last is the one known before, or a device
/// of the scan that was discovered later; and no device that is known was
/// discovered after it.
pub proof fn latest_is_the_last_discovered(
    scanner: &mut NetworkScanner,
    scan: IpMap<DeviceInfo>,
    address: Ipv4Addr,
)
    requires
        call_ensures(NetworkScanner::complete_scan, (scanner, &scan), ()),
    ensures
        final(scanner).latest() == old(scanner).latest() || {
            let l = final(scanner).latest()->0;
            &&& final(scanner).latest() is Some
            &&& final(scanner).devices().contains_key(l.ip)
            &&& l.mac_address == final(scanner).devices()[l.ip].mac_address
            &&& l.discovered_at == final(scanner).devices()[l.ip].discovered_at
            &&& match old(scanner).latest() {
                Some(o) => o.discovered_at.secs < l.discovered_at.secs || (o.discovered_at.secs
                    == l.discovered_at.secs && o.discovered_at.nanos < l.discovered_at.nanos),
                None => true,
            }
        },
        final(scanner).devices().contains_key(address) ==> {
            let l = final(scanner).latest()->0;
            let d = final(scanner).devices()[address].discovered_at;
            &&& final(scanner).latest() is Some
            &&& d.secs < l.discovered_at.secs || (d.secs == l.discovered_at.secs && d.nanos
                <= l.discovered_at.nanos)
        },
{
    let devices = final(scanner).devices();
    let previous = old(scanner).latest();
    let next = final(scanner).latest();
    assert(latest_after(previous, devices, next));
    if next != previous {
        if let Some(o) = previous {
            let a = choose|a: Ipv4Addr| #[trigger]
                devices.contains_key(a) && o.discovered_at.before(devices[a].discovered_at);
            assert(!next->0.discovered_at.before(devices[a].discovered_at));
        }
    }
}

/// A lookup by MAC address finds an address exactly when a device with that MAC
/// address, up to the case of its letters, is known, and then one of a device
/// that has it.
pub proof fn lookup_finds_the_device(
    scanner: NetworkScanner,
    mac: &str,
    result: Option<Ipv4Addr>,
    address: Ipv4Addr,
    known: String,
)
    requires
        call_ensures(NetworkScanner::get_ip_by_mac, (&scanner, mac), result),
    ensures
        scanner.devices().contains_key(address) && scanner.devices()[address].mac_address == Some(
            known,
        ) && known@.len() == mac@.len() && (forall|i: int|
            0 <= i < mac@.len() ==> text::same_letter(#[trigger] known@[i], mac@[i]))
            ==> result is Some,
        match result {
            Some(found) => {
                &&& scanner.devices().contains_key(found)
                &&& scanner.devices()[found].mac_address matches Some(m)
                &&& m@.len() == mac@.len()
                &&& forall|i: int| 0 <= i < mac@.len() ==> text::same_letter(#[trigger] m@[i], mac@[i])
            },
            None => true,
        },
{
    text::lowering_forgets_only_case(known@, mac@);
    if let Some(found) = result {
        let m = scanner.devices()[found].mac_address->0;
        text::lowering_forgets_only_case(m@, mac@);
    }
    if scanner.devices().contains_key(address) && scanner.devices()[address].mac_address == Some(
        known,
    ) && known@.len() == mac@.len() && (forall|i: int|
        0 <= i < mac@.len() ==> text::same_letter(#[trigger] known@[i], mac@[i])) {
        assert(is_address_of(scanner.devices(), mac@, address));
    }
}

/// A scanner knows nothing before its first scan.
pub proof fn new_scanner_knows_nothing(network_base: String, scanner: NetworkScanner, base: &str)
    requires
        call_ensures(NetworkScanner::new, (network_base,), scanner),
        call_ensures(NetworkScanner::network_base, (&scanner,), base),
    ensures
        forall|a: Ipv4Addr| !scanner.devices().contains_key(a),
        scanner.latest() is None,
        base@ == network_base@,
{
}

/// A device with a MAC address is on the network exactly when some address is
/// known with that MAC address, up to the case of its letters.
pub proof fn presence_is_a_known_mac(devices: Map<Ipv4Addr, DeviceInfo>, mac: Seq<char>)
    ensures
        on_network(devices, mac) <==> exists|a: Ipv4Addr|
            {
                &&& #[trigger] devices.contains_key(a)
                &&& devices[a].mac_address is Some
                &&& devices[a].mac_address->0@.len() == mac.len()
                &&& forall|i: int|
                    0 <= i < mac.len() ==> text::same_letter(
                        #[trigger] devices[a].mac_address->0@[i],
                        mac[i],
                    )
            },
{
    if on_network(devices, mac) {
        let a = choose|a: Ipv4Addr| is_address_of(devices, mac, a);
        text::lowering_forgets_only_case(devices[a].mac_address->0@, mac);
        assert(devices.contains_key(a));
    }
    if exists|a: Ipv4Addr|
        {
            &&& #[trigger] devices.contains_key(a)
            &&& devices[a].mac_address is Some
            &&& devices[a].mac_address->0@.len() == mac.len()
            &&& forall|i: int|
                0 <= i < mac.len() ==> text::same_letter(
                    #[trigger] devices[a].mac_address->0@[i],
                    mac[i],
                )
        } {
        let a = choose|a: Ipv4Addr|
            {
                &&& #[trigger] devices.contains_key(a)
                &&& devices[a].mac_address is Some
                &&& devices[a].mac_address->0@.len() == mac.len()
                &&& forall|i: int|
                    0 <= i < mac.len() ==> text::same_letter(
                        #[trigger] devices[a].mac_address->0@[i],
                        mac[i],
                    )
            };
        text::lowering_forgets_only_case(devices[a].mac_address->0@, mac);
        assert(is_address_of(devices, mac, a));
    }
}

/// Two sightings are of different devices exactly when both have a MAC address
/// and the texts of the two differ.
pub proof fn mac_texts_tell_devices_apart(earlier: DeviceInfo, later: DeviceInfo, same: bool)
    requires
        call_ensures(is_same_device, (&earlier, &later), same),
    ensures
        !same <==> earlier.mac_address is Some && later.mac_address is Some
            && earlier.mac_address->0@ != later.mac_address->0@,
{
}

/// The devices that are told are those of the last scan, with the device that
/// was discovered last.
pub proof fn known_devices_are_told(
    scanner: NetworkScanner,
    devices: &'static IpMap<DeviceInfo>,
    latest: &'static Option<LatestDevice>,
)
    requires
        call_ensures(NetworkScanner::get_devices, (&scanner,), devices),
        call_ensures(NetworkScanner::get_latest, (&scanner,), latest),
    ensures
        devices@ == scanner.devices(),
        *latest == scanner.latest(),
{
}

} // verus!
