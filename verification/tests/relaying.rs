use labbridger::app_config::{ProbeMethod, RelayTarget};
use labbridger::assoc_map::{IpMap, StringMap};
use labbridger::http_outcome::HttpOutcome;
use labbridger::ip::{IpAddr, Ipv4Addr};
use labbridger::network_scanner::{DeviceInfo, NetworkScanner, Timestamp};
use labbridger::relay::{
    body_unreadable, build_upstream_url, forward_headers, is_hop_by_hop, proxy, relay_handler,
    relay_response, relay_root_handler, return_headers, upstream_unreachable, Header, ProxyStep,
    RelayState, UpstreamRequest,
};
use labbridger::relay_probe::{
    probe_url, http_up, ping_host, probe_target, ProbeStep, RelayTargetProbe,
};
use labbridger::reply::{Body, Reply};
use labbridger::target_monitor::TargetMonitor;
use labbridger::target_probeable::Probeable;
use labbridger::target_status::{TargetInfo, TargetStatus};

const PC: Ipv4Addr = Ipv4Addr { a: 192, b: 168, c: 1, d: 50 };

fn mac_target(probe_method: ProbeMethod) -> RelayTarget {
    RelayTarget::Mac {
        mac: "aa:bb:cc:dd:ee:ff".to_owned(),
        port: 11434,
        probe_path: "/api/tags".to_owned(),
        shelly_power_mac: None,
        wol_enabled: false,
        probe_method,
        shutdown_ssh: None,
        shutdown_api_path: None,
        shutdown_plug_off: false,
    }
}

fn managed(url: &str, path: &str, probe_method: ProbeMethod) -> RelayTarget {
    RelayTarget::StaticManaged {
        url: url.to_owned(),
        probe_path: path.to_owned(),
        probe_method,
    }
}

fn targets() -> StringMap<RelayTarget> {
    let mut m = StringMap::new();
    m.insert("ollama".to_owned(), mac_target(ProbeMethod::Http));
    m.insert("static".to_owned(), RelayTarget::Static("http://10.0.0.1:8000//".to_owned()));
    m.insert("managed".to_owned(), managed("http://10.0.0.2/", "/health", ProbeMethod::Http));
    m
}

fn empty_network() -> NetworkScanner {
    NetworkScanner::new("192.168.1".to_owned())
}

fn network() -> NetworkScanner {
    let mut scan = IpMap::new();
    scan.insert(
        PC,
        DeviceInfo {
            mac_address: Some("AA:BB:CC:DD:EE:FF".to_owned()),
            discovered_at: Timestamp { secs: 1, nanos: 0 },
        },
    );
    let mut s = empty_network();
    s.complete_scan(&scan);
    s
}

fn h(name: &str, value: &str) -> Header {
    Header { name: name.to_owned(), value: value.as_bytes().to_vec() }
}

fn pairs(headers: &[Header]) -> Vec<(String, String)> {
    headers
        .iter()
        .map(|x| (x.name.clone(), String::from_utf8(x.value.clone()).unwrap()))
        .collect()
}

fn pair(name: &str, value: &str) -> (String, String) {
    (name.to_owned(), value.to_owned())
}

fn forwarded(step: ProxyStep) -> UpstreamRequest {
    match step {
        ProxyStep::Forward(u) => u,
        other => panic!("not forwarded: {:?}", other),
    }
}

fn answered(step: ProxyStep) -> Reply {
    match step {
        ProxyStep::Answer(r) => r,
        other => panic!("not answered: {:?}", other),
    }
}

fn text_of(reply: &Reply) -> String {
    match &reply.body {
        Body::Text(t) | Body::Cause(t) => t.clone(),
        other => panic!("no text: {:?}", other),
    }
}

#[test]
fn hop_by_hop_headers_are_told_in_any_case() {
    for name in [
        "connection", "Keep-Alive", "proxy-authenticate", "Proxy-Authorization", "TE", "trailers",
        "Transfer-Encoding", "upgrade", "Host", "proxy-connection",
    ] {
        assert!(is_hop_by_hop(name), "{}", name);
    }
    for name in ["content-length", "accept", "authorization", "", "hosts"] {
        assert!(!is_hop_by_hop(name), "{}", name);
    }
}

#[test]
fn request_headers_are_forwarded_in_order() {
    let headers = vec![h("Host", "x"), h("accept", "a"), h("accept", "b"), h("te", "t"), h("z", "")];
    let out = forward_headers(&headers);
    assert_eq!(pairs(&out), vec![pair("accept", "a"), pair("accept", "b"), pair("z", "")]);
    assert_eq!(pairs(&forward_headers(&out)), pairs(&out));
}

#[test]
fn answer_headers_keep_the_last_of_each_name() {
    let headers = vec![
        h("set-cookie", "a"),
        h("content-length", "5"),
        h("connection", "close"),
        h("x", "1"),
        h("Set-Cookie", "b"),
    ];
    assert_eq!(pairs(&return_headers(&headers)), vec![pair("x", "1"), pair("Set-Cookie", "b")]);
}

#[test]
fn upstream_url_is_base_path_and_query() {
    assert_eq!(build_upstream_url("http://h", "", ""), "http://h");
    assert_eq!(build_upstream_url("http://h", "a/b", ""), "http://h/a/b");
    assert_eq!(build_upstream_url("http://h", "", "q=1"), "http://h?q=1");
    assert_eq!(build_upstream_url("http://h", "a", "q=1&r"), "http://h/a?q=1&r");
}

#[test]
fn unknown_target_is_not_found() {
    let step =
        proxy(&RelayState::new(targets()), &network(), "nope", "", "", "GET", &Vec::new());
    let r = answered(step);
    assert_eq!(r.status, 404);
    assert_eq!(text_of(&r), "Unknown relay target: 'nope'");
}

#[test]
fn absent_device_is_a_bad_gateway() {
    let step =
        proxy(&RelayState::new(targets()), &empty_network(), "ollama", "", "", "GET", &Vec::new());
    let r = answered(step);
    assert_eq!(r.status, 502);
    assert_eq!(
        text_of(&r),
        "Target 'ollama': MAC aa:bb:cc:dd:ee:ff not found on the network (scan may still be running)"
    );
}

#[test]
fn invalid_method_is_a_bad_request() {
    let state = RelayState::new(targets());
    for method in ["", "GE T", "G\u{c9}T", "GET,"] {
        let r = answered(proxy(&state, &network(), "ollama", "", "", method, &Vec::new()));
        assert_eq!(r.status, 400);
        assert_eq!(text_of(&r), "invalid HTTP method");
    }
    // The target is looked up first.
    let r = answered(proxy(&state, &network(), "nope", "", "", "", &Vec::new()));
    assert_eq!(r.status, 404);
}

#[test]
fn request_goes_to_the_current_address_of_a_device() {
    let state = RelayState::new(targets());
    let headers = vec![h("host", "me"), h("accept", "*/*")];
    let path = ("ollama".to_owned(), "api/chat".to_owned());
    let u = forwarded(relay_handler(&state, &network(), path, "a=b", "POST", &headers));
    assert_eq!(u.url, "http://192.168.1.50:11434/api/chat?a=b");
    assert_eq!(u.method, "POST");
    assert_eq!(pairs(&u.headers), vec![pair("accept", "*/*")]);
}

#[test]
fn request_goes_to_a_fixed_url_without_trailing_slashes() {
    let state = RelayState::new(targets());
    let none = Vec::new();
    let target = "static".to_owned();
    let u = forwarded(relay_root_handler(&state, &empty_network(), target, "", "PATCH", &none));
    assert_eq!(u.url, "http://10.0.0.1:8000");
    let path = ("managed".to_owned(), "x".to_owned());
    let u = forwarded(relay_handler(&state, &empty_network(), path, "", "X-custom!", &none));
    assert_eq!(u.url, "http://10.0.0.2/x");
    assert_eq!(u.method, "X-custom!");
}

#[test]
fn body_is_collected_in_order() {
    let state = RelayState::new(targets());
    let step = proxy(&state, &network(), "static", "", "", "PUT", &Vec::new());
    let mut u = forwarded(step);
    u.push_chunk(b"ab");
    u.push_chunk(b"");
    u.push_chunk(b"c");
    assert_eq!(u.body_to_send(), Some(b"abc".to_vec()));
    let u = forwarded(proxy(&state, &network(), "static", "", "", "GET", &Vec::new()));
    assert_eq!(u.body_to_send(), None);
}

#[test]
fn answer_status_is_handed_on() {
    assert_eq!(relay_response(200, &Vec::new()).status, 200);
    assert_eq!(relay_response(999, &Vec::new()).status, 999);
    assert_eq!(relay_response(99, &Vec::new()).status, 502);
    assert_eq!(relay_response(1000, &Vec::new()).status, 502);
    let head = relay_response(404, &vec![h("x", "y"), h("upgrade", "z")]);
    assert_eq!(pairs(&head.headers), vec![pair("x", "y")]);
}

#[test]
fn failures_are_answered_with_their_cause() {
    let r = body_unreadable("cut".to_owned());
    assert_eq!((r.status, text_of(&r)), (400, "cut".to_owned()));
    let r = upstream_unreachable("refused".to_owned());
    assert_eq!((r.status, text_of(&r)), (502, "refused".to_owned()));
}

// ── Probes ───────────────────────────────────────────────────────────────────

fn http_url(step: ProbeStep) -> String {
    match step {
        ProbeStep::Http { url } => url,
        other => panic!("no request: {:?}", other),
    }
}

fn pinged(step: ProbeStep) -> IpAddr {
    match step {
        ProbeStep::Ping { ip } => ip,
        other => panic!("no ping: {:?}", other),
    }
}

fn settled(step: ProbeStep) -> TargetStatus {
    match step {
        ProbeStep::Settled(s) => s,
        other => panic!("not settled: {:?}", other),
    }
}

#[test]
fn probe_url_has_one_slash_at_the_joint() {
    assert_eq!(probe_url("http://h//", "//a/b/"), "http://h/a/b/");
    assert_eq!(probe_url("http://h", "a"), "http://h/a");
    assert_eq!(probe_url("http://h", ""), "http://h/");
}

#[test]
fn statuses_below_500_are_up() {
    assert!(http_up(&HttpOutcome::Answered(200)));
    assert!(http_up(&HttpOutcome::Answered(404)));
    assert!(http_up(&HttpOutcome::Answered(499)));
    assert!(!http_up(&HttpOutcome::Answered(500)));
    assert!(!http_up(&HttpOutcome::Failed("timeout".to_owned())));
}

#[test]
fn fixed_url_is_probed_at_its_root() {
    let t = RelayTarget::Static("http://10.0.0.1:8000/".to_owned());
    let p = RelayTargetProbe::new(&t);
    assert_eq!(http_url(p.probe(&network())), "http://10.0.0.1:8000/");
    assert_eq!(p.settle(true), TargetStatus::Online);
    assert_eq!(p.settle(false), TargetStatus::Offline);
}

#[test]
fn managed_url_is_probed_at_its_path() {
    let t = managed("http://10.0.0.2:9000/", "/health", ProbeMethod::Http);
    let p = RelayTargetProbe::new(&t);
    assert_eq!(http_url(p.probe(&network())), "http://10.0.0.2:9000/health");
    assert_eq!(p.settle(false), TargetStatus::Offline);
}

#[test]
fn managed_url_with_an_address_is_pinged() {
    let t = managed("http://192.168.1.70:22/x", "/", ProbeMethod::Ping);
    let step = RelayTargetProbe::new(&t).probe(&network());
    assert_eq!(pinged(step), IpAddr::V4(Ipv4Addr { a: 192, b: 168, c: 1, d: 70 }));
}

#[test]
fn managed_url_without_an_address_is_offline() {
    for url in ["http://example.com/", "http://[::1]:80/", "not a url", "mailto:a@b"] {
        let t = managed(url, "/", ProbeMethod::Ping);
        let step = RelayTargetProbe::new(&t).probe(&network());
        assert_eq!(settled(step), TargetStatus::Offline, "{}", url);
    }
}

#[test]
fn host_is_pinged_when_it_is_an_address() {
    assert_eq!(settled(ping_host(None)), TargetStatus::Offline);
    assert_eq!(settled(ping_host(Some("pc.lan".to_owned()))), TargetStatus::Offline);
    assert_eq!(
        pinged(ping_host(Some("::1".to_owned()))),
        IpAddr::V6([0, 0, 0, 0, 0, 0, 0, 1])
    );
}

#[test]
fn absent_device_is_offline_without_a_probe() {
    let t = mac_target(ProbeMethod::Http);
    let p = RelayTargetProbe::new(&t);
    assert_eq!(settled(p.probe(&empty_network())), TargetStatus::Offline);
}

#[test]
fn present_device_is_probed_and_starting_until_it_answers() {
    let t = mac_target(ProbeMethod::Http);
    let p = RelayTargetProbe::new(&t);
    assert_eq!(http_url(p.probe(&network())), "http://192.168.1.50:11434/api/tags");
    assert_eq!(p.settle(false), TargetStatus::Starting);
    assert_eq!(p.settle(true), TargetStatus::Online);
    let t = mac_target(ProbeMethod::Ping);
    assert_eq!(pinged(RelayTargetProbe::new(&t).probe(&network())), IpAddr::V4(PC));
}

#[test]
fn info_holds_the_address_of_devices_only() {
    let t = mac_target(ProbeMethod::Http);
    let info = probe_target(&t, &network(), TargetStatus::Starting);
    assert_eq!(info, TargetInfo { status: TargetStatus::Starting, ip: Some(PC) });
    let info = probe_target(&t, &empty_network(), TargetStatus::Offline);
    assert_eq!(info, TargetInfo { status: TargetStatus::Offline, ip: None });
    let t = RelayTarget::Static("http://x".to_owned());
    let info = probe_target(&t, &network(), TargetStatus::Online);
    assert_eq!(info, TargetInfo { status: TargetStatus::Online, ip: None });
}

#[test]
fn monitor_takes_targets_to_be_offline_until_probed() {
    let m = TargetMonitor::new(targets());
    assert_eq!(m.len(), 3);
    assert_eq!(m.get_all().len(), 3);
    let offline = TargetInfo { status: TargetStatus::Offline, ip: None };
    for i in 0..m.len() {
        let (name, _) = m.target(i);
        assert_eq!(m.get(name), Some(offline));
    }
    assert_eq!(m.get("nope"), None);
}

#[test]
fn monitor_records_one_target_at_a_time() {
    let mut m = TargetMonitor::new(targets());
    let info = TargetInfo { status: TargetStatus::Online, ip: Some(PC) };
    m.record("ollama".to_owned(), info);
    assert_eq!(m.get("ollama"), Some(info));
    assert_eq!(m.get("static").unwrap().status, TargetStatus::Offline);
    assert_eq!(m.get_all().len(), 3);
}
