use labbridger::assoc_map::IpMap;
use labbridger::ip::{IpAddr, Ipv4Addr};
use labbridger::network_scanner::{
    merge_devices, read_arp_table, scan_hosts, scan_result, DeviceInfo, NetworkScanner, Timestamp,
};

fn at(d: u8) -> Ipv4Addr {
    Ipv4Addr { a: 192, b: 168, c: 1, d }
}

fn v4(d: u8) -> IpAddr {
    IpAddr::V4(at(d))
}

fn time(secs: i64) -> Timestamp {
    Timestamp { secs, nanos: 0 }
}

fn info(mac: Option<&str>, secs: i64) -> DeviceInfo {
    DeviceInfo { mac_address: mac.map(str::to_owned), discovered_at: time(secs) }
}

fn devices(list: &[(u8, Option<&str>, i64)]) -> IpMap<DeviceInfo> {
    let mut m = IpMap::new();
    for (d, mac, secs) in list {
        m.insert(at(*d), info(*mac, *secs));
    }
    m
}

fn scanned(lists: &[&[(u8, Option<&str>, i64)]]) -> NetworkScanner {
    let mut s = NetworkScanner::new("192.168.1".to_owned());
    for l in lists {
        s.complete_scan(&devices(l));
    }
    s
}

const TABLE: &str = "IP address       HW type     Flags       HW address            Mask     Device
192.168.1.10     0x1         0x2         aa:bb:cc:dd:ee:ff     *        eth0
192.168.1.11     0x1         0x0         00:00:00:00:00:00     *        eth0
not-an-address   0x1         0x2         11:22:33:44:55:66     *        eth0
192.168.1.12     0x1         0x2
192.168.1.13     0x1         0x2         11:22:33:44:55:66     *        eth0
192.168.1.10     0x1         0x2         aa:bb:cc:dd:ee:00     *        eth0
";

#[test]
fn arp_table_is_read() {
    let t = read_arp_table(Some(TABLE));
    assert_eq!(t.len(), 2);
    assert_eq!(t.get(&v4(10)).map(String::as_str), Some("aa:bb:cc:dd:ee:00"));
    assert_eq!(t.get(&v4(13)).map(String::as_str), Some("11:22:33:44:55:66"));
    assert!(t.get(&v4(11)).is_none());
    assert!(t.get(&v4(12)).is_none());
}

#[test]
fn arp_table_holds_ipv6_addresses_too() {
    let t = read_arp_table(Some("heading\nfe80::1 0x1 0x2 aa:bb:cc:dd:ee:ff * eth0\n"));
    let address = IpAddr::V6([0xfe80, 0, 0, 0, 0, 0, 0, 1]);
    assert_eq!(t.get(&address).map(String::as_str), Some("aa:bb:cc:dd:ee:ff"));
    assert!(t.get(&IpAddr::V6([0; 8])).is_none());
}

#[test]
fn arp_heading_is_skipped_and_missing_table_is_empty() {
    assert_eq!(read_arp_table(None).len(), 0);
    assert_eq!(read_arp_table(Some("")).len(), 0);
    assert_eq!(read_arp_table(Some("192.168.1.10 a b aa:bb:cc:dd:ee:ff")).len(), 0);
}

#[test]
fn hosts_2_to_254_are_scanned() {
    let hosts = scan_hosts("192.168.1").unwrap();
    assert_eq!(hosts.len(), 253);
    assert_eq!(hosts[0], at(2));
    assert_eq!(hosts[252], at(254));
}

#[test]
fn network_base_needs_three_octets() {
    assert!(scan_hosts("192.168").is_none());
    assert!(scan_hosts("192.168.1.5").is_none());
    assert!(scan_hosts("192.168.256").is_none());
    assert!(scan_hosts("").is_none());
    assert!(scan_hosts("1.x.2.3").is_none());
    assert!(scan_hosts("1..2").is_none());
    assert!(scan_hosts("+10.20.30").is_none());
    assert!(scan_hosts("10.20.30.").is_none());
    assert_eq!(scan_hosts("10.20.030").unwrap()[0], Ipv4Addr { a: 10, b: 20, c: 30, d: 2 });
}

#[test]
fn scan_lists_the_hosts_that_answered() {
    let arp = read_arp_table(Some(TABLE));
    let replies = vec![(at(13), true), (at(10), false), (at(20), true)];
    let found = scan_result(&replies, &arp, time(7));
    assert_eq!(found.len(), 2);
    let a = found.get(&at(13)).unwrap();
    assert_eq!(a.mac_address.as_deref(), Some("11:22:33:44:55:66"));
    assert_eq!(a.discovered_at, time(7));
    assert_eq!(found.get(&at(20)).unwrap().mac_address, None);
}

#[test]
fn known_device_keeps_its_discovery_and_mac() {
    let known = devices(&[(5, Some("aa"), 1), (6, Some("bb"), 1), (7, None, 1)]);
    let scan = devices(&[(5, Some("aa"), 9), (6, None, 9), (7, Some("cc"), 9)]);
    let m = merge_devices(&known, &scan);
    assert_eq!(m.get(&at(5)).unwrap().discovered_at, time(1));
    assert_eq!(m.get(&at(6)).unwrap().discovered_at, time(1));
    assert_eq!(m.get(&at(6)).unwrap().mac_address.as_deref(), Some("bb"));
    assert_eq!(m.get(&at(7)).unwrap().discovered_at, time(1));
    assert_eq!(m.get(&at(7)).unwrap().mac_address.as_deref(), Some("cc"));
}

#[test]
fn reassigned_address_is_a_new_device() {
    let s = scanned(&[&[(5, Some("aa"), 1)], &[(5, Some("bb"), 9)]]);
    let d = s.get_devices().get(&at(5)).unwrap();
    assert_eq!(d.discovered_at, time(9));
    assert_eq!(d.mac_address.as_deref(), Some("bb"));
}

#[test]
fn mac_case_makes_another_device_in_a_scan() {
    let s = scanned(&[&[(5, Some("aa"), 1)], &[(5, Some("AA"), 9)]]);
    assert_eq!(s.get_devices().get(&at(5)).unwrap().discovered_at, time(9));
}

#[test]
fn absent_devices_are_dropped() {
    let s = scanned(&[&[(5, Some("aa"), 1), (6, Some("bb"), 1)], &[(6, Some("bb"), 9)]]);
    assert_eq!(s.get_devices().len(), 1);
    assert!(s.get_ip_by_mac("aa").is_none());
    assert_eq!(s.get_ip_by_mac("bb"), Some(at(6)));
}

#[test]
fn repeated_scan_keeps_everything() {
    let s = scanned(&[&[(5, Some("aa"), 1)], &[(5, Some("aa"), 2)], &[(5, Some("aa"), 3)]]);
    assert_eq!(s.get_devices().get(&at(5)).unwrap().discovered_at, time(1));
    assert_eq!(s.get_latest().as_ref().unwrap().discovered_at, time(1));
}

#[test]
fn latest_is_the_newest_device() {
    let s = scanned(&[&[(5, Some("aa"), 1)], &[(5, Some("aa"), 9), (6, Some("bb"), 9)]]);
    let l = s.get_latest().as_ref().unwrap();
    assert_eq!(l.ip, at(6));
    assert_eq!(l.mac_address.as_deref(), Some("bb"));
    assert_eq!(l.discovered_at, time(9));
}

#[test]
fn latest_stays_when_nothing_new_is_found() {
    let s = scanned(&[&[(5, Some("aa"), 1)], &[]]);
    assert_eq!(s.get_devices().len(), 0);
    assert_eq!(s.get_latest().as_ref().unwrap().ip, at(5));
}

#[test]
fn scanner_starts_empty() {
    let s = NetworkScanner::new("10.0.0".to_owned());
    assert_eq!(s.get_devices().len(), 0);
    assert!(s.get_latest().is_none());
    assert_eq!(s.network_base(), "10.0.0");
}

#[test]
fn lookup_by_mac_ignores_case() {
    let s = scanned(&[&[(5, Some("AA:bb:CC:dd:EE:ff"), 1), (6, None, 1)]]);
    assert_eq!(s.get_ip_by_mac("aa:BB:cc:DD:ee:FF"), Some(at(5)));
    assert_eq!(s.get_ip_by_mac("aa:bb:cc:dd:ee:f0"), None);
}

#[test]
fn lookups_on_one_scan_agree() {
    let s = scanned(&[&[(5, Some("aa"), 1), (6, Some("AA"), 1)]]);
    let first = s.get_ip_by_mac("aa");
    assert!(first == Some(at(5)) || first == Some(at(6)));
    assert_eq!(s.get_ip_by_mac("aA"), first);
}

#[test]
fn timestamps_compare_by_seconds_then_nanoseconds() {
    let a = Timestamp { secs: 1, nanos: 5 };
    let b = Timestamp { secs: 1, nanos: 6 };
    let c = Timestamp { secs: 2, nanos: 0 };
    assert!(a.is_before(&b) && b.is_before(&c));
    assert!(!a.is_before(&a) && !c.is_before(&a));
}
