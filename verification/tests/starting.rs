use labbridger::app_config::{ProbeMethod, RelayTarget};
use labbridger::assoc_map::{IpMap, StringMap};
use labbridger::http_outcome::HttpOutcome;
use labbridger::ip::Ipv4Addr;
use labbridger::network_scanner::{DeviceInfo, NetworkScanner, Timestamp};
use labbridger::relay::RelayState;
use labbridger::reply::{Body, Reply};
use labbridger::shelly::{
    off_refused, on_refused, plug_refused, PlugOffStep, PlugReading, ShellyPlugStoppable,
    ShellyStartable, ShellyStep,
};
use labbridger::target_startable::Startable;
use labbridger::target_starter::{
    answer_start, create_starter, start_target_handler, StartDecision, StartStep, StarterType,
};
use labbridger::target_stoppable::Stoppable;
use labbridger::wol::{WolStartable, WolStep};

const DEVICE: &str = "aa:bb:cc:dd:ee:ff";
const PLUG: &str = "11:22:33:44:55:66";
const PLUG_AT: Ipv4Addr = Ipv4Addr { a: 192, b: 168, c: 1, d: 45 };

fn network(macs: &[(&str, u8)]) -> NetworkScanner {
    let mut scan = IpMap::new();
    for (mac, d) in macs {
        scan.insert(
            Ipv4Addr { a: 192, b: 168, c: 1, d: *d },
            DeviceInfo {
                mac_address: Some((*mac).to_owned()),
                discovered_at: Timestamp { secs: 1, nanos: 0 },
            },
        );
    }
    let mut s = NetworkScanner::new("192.168.1".to_owned());
    s.complete_scan(&scan);
    s
}

fn target(mac: &str, plug: Option<&str>, wol_enabled: bool) -> RelayTarget {
    RelayTarget::Mac {
        mac: mac.to_owned(),
        port: 80,
        probe_path: "/".to_owned(),
        shelly_power_mac: plug.map(str::to_owned),
        wol_enabled,
        probe_method: ProbeMethod::Http,
        shutdown_ssh: None,
        shutdown_api_path: None,
        shutdown_plug_off: false,
    }
}

fn failed() -> HttpOutcome {
    HttpOutcome::Failed("connection refused".to_owned())
}

fn message(step: ShellyStep) -> String {
    match step {
        ShellyStep::Done(Err(e)) => e,
        other => panic!("no error: {:?}", other),
    }
}

// ── Wake-on-LAN ──────────────────────────────────────────────────────────────

#[test]
fn waking_sends_a_magic_packet_to_the_network() {
    let w = WolStartable::new(DEVICE, "192.168.1");
    match w.start(&network(&[])) {
        WolStep::Broadcast { packet, to, from } => {
            assert_eq!(to, "192.168.1.255:9");
            assert_eq!(from, "0.0.0.0:0");
            assert_eq!(packet[..6], [0xff; 6]);
            for i in 0..16 {
                let part = &packet[6 + 6 * i..12 + 6 * i];
                assert_eq!(part, [0xaa, 0xbb, 0xcc, 0xdd, 0xee, 0xff]);
            }
        },
        other => panic!("no packet: {:?}", other),
    }
}

#[test]
fn waking_leaves_a_running_device_alone() {
    let w = WolStartable::new("AA:BB:CC:DD:EE:FF", "192.168.1");
    assert!(matches!(w.start(&network(&[(DEVICE, 9)])), WolStep::Done(Ok(()))));
    // The address is not even read.
    let w = WolStartable::new("odd", "192.168.1");
    assert!(matches!(w.start(&network(&[("ODD", 9)])), WolStep::Done(Ok(()))));
}

#[test]
fn waking_refuses_a_bad_address() {
    let w = WolStartable::new("aa:bb", "192.168.1");
    match w.start(&network(&[])) {
        WolStep::Done(Err(e)) => assert_eq!(
            e,
            "Invalid MAC address 'aa:bb': MAC address must be 12 hex characters, got 4"
        ),
        other => panic!("{:?}", other),
    }
}

#[test]
fn waking_ends_with_what_came_of_sending() {
    let w = WolStartable::new(DEVICE, "192.168.1");
    assert_eq!(w.finish(Ok(())), Ok(()));
    assert_eq!(
        w.finish(Err("no route".to_owned())),
        Err("Failed to send WOL packet to aa:bb:cc:dd:ee:ff: no route".to_owned())
    );
}

// ── Smart plugs ──────────────────────────────────────────────────────────────

#[test]
fn plug_of_a_running_device_is_not_asked() {
    let s = ShellyStartable::new(PLUG, DEVICE);
    assert!(matches!(s.start(&network(&[(DEVICE, 9), (PLUG, 45)])), ShellyStep::Done(Ok(()))));
}

#[test]
fn absent_plug_is_reported() {
    let s = ShellyStartable::new(PLUG, DEVICE);
    assert_eq!(
        message(s.start(&network(&[]))),
        "Shelly device with MAC 11:22:33:44:55:66 not found on network"
    );
}

#[test]
fn plug_is_read_first() {
    let s = ShellyStartable::new(PLUG, DEVICE);
    match s.start(&network(&[(PLUG, 45)])) {
        ShellyStep::ReadStatus { url, timeout_secs, plug } => {
            assert_eq!(url, "http://192.168.1.45/rpc/Switch.GetStatus?id=0");
            assert_eq!(timeout_secs, 5);
            assert_eq!(plug, PLUG_AT);
        },
        other => panic!("{:?}", other),
    }
}

#[test]
fn plug_that_is_on_is_power_cycled() {
    let s = ShellyStartable::new(PLUG, DEVICE);
    let on = PlugReading::Answered { status: 200, output: Some(true) };
    match s.after_status(PLUG_AT, on) {
        ShellyStep::TurnOff { url, timeout_secs, .. } => {
            assert_eq!(url, "http://192.168.1.45/rpc/Switch.Set?id=0&on=false");
            assert_eq!(timeout_secs, 5);
        },
        other => panic!("{:?}", other),
    }
    match s.after_off(PLUG_AT, HttpOutcome::Answered(200)) {
        ShellyStep::Pause { secs, plug } => assert_eq!((secs, plug), (3, PLUG_AT)),
        other => panic!("{:?}", other),
    }
    match s.after_pause(PLUG_AT) {
        ShellyStep::TurnOn { url, timeout_secs, .. } => {
            assert_eq!(url, "http://192.168.1.45/rpc/Switch.Set?id=0&on=true");
            assert_eq!(timeout_secs, 5);
        },
        other => panic!("{:?}", other),
    }
    assert_eq!(s.after_on(PLUG_AT, HttpOutcome::Answered(204)), Ok(()));
}

#[test]
fn plug_that_does_not_report_on_is_turned_on_at_once() {
    let s = ShellyStartable::new(PLUG, DEVICE);
    for reading in [
        PlugReading::Answered { status: 200, output: Some(false) },
        PlugReading::Answered { status: 200, output: None },
        PlugReading::Answered { status: 500, output: Some(true) },
        PlugReading::Failed,
    ] {
        assert!(matches!(s.after_status(PLUG_AT, reading), ShellyStep::TurnOn { .. }));
    }
}

#[test]
fn plug_that_will_not_turn_off_ends_the_start() {
    let s = ShellyStartable::new(PLUG, DEVICE);
    assert_eq!(
        message(s.after_off(PLUG_AT, HttpOutcome::Answered(404))),
        "Failed to turn off Shelly device, status: 404 Not Found"
    );
    assert_eq!(
        message(s.after_off(PLUG_AT, failed())),
        "Failed to communicate with Shelly device while turning off: connection refused"
    );
    assert_eq!(off_refused("x"), "Failed to turn off Shelly device, status: x");
}

#[test]
fn plug_that_will_not_turn_on_is_reported() {
    let s = ShellyStartable::new(PLUG, DEVICE);
    assert_eq!(
        s.after_on(PLUG_AT, HttpOutcome::Answered(500)),
        Err("Shelly device responded with error status: 500 Internal Server Error".to_owned())
    );
    assert_eq!(
        s.after_on(PLUG_AT, failed()),
        Err("Failed to communicate with Shelly device at 192.168.1.45: connection refused"
            .to_owned())
    );
    assert_eq!(on_refused("x"), "Shelly device responded with error status: x");
}

#[test]
fn plug_is_turned_off() {
    let p = ShellyPlugStoppable::new(PLUG.to_owned());
    match p.stop(&network(&[(PLUG, 45)]), 0) {
        PlugOffStep::TurnOff { url, timeout_secs, plug } => {
            assert_eq!(url, "http://192.168.1.45/rpc/Switch.Set?id=0&on=false");
            assert_eq!((timeout_secs, plug), (5, PLUG_AT));
        },
        other => panic!("{:?}", other),
    }
    match p.stop(&network(&[]), 0) {
        PlugOffStep::Done(Err(e)) => {
            assert_eq!(e, "Shelly device with MAC 11:22:33:44:55:66 not found on network")
        },
        other => panic!("{:?}", other),
    }
    assert_eq!(p.after_off(PLUG_AT, HttpOutcome::Answered(299)), Ok(()));
    assert_eq!(
        p.after_off(PLUG_AT, HttpOutcome::Answered(300)),
        Err("Shelly plug responded with error status: 300 Multiple Choices".to_owned())
    );
    assert_eq!(
        p.after_off(PLUG_AT, failed()),
        Err("Failed to communicate with Shelly plug at 192.168.1.45: connection refused".to_owned())
    );
    assert_eq!(plug_refused("x"), "Shelly plug responded with error status: x");
}

// ── Start requests ───────────────────────────────────────────────────────────

fn state() -> RelayState {
    let mut m = StringMap::new();
    m.insert("wol".to_owned(), target(DEVICE, Some(PLUG), true));
    m.insert("plug".to_owned(), target(DEVICE, Some(PLUG), false));
    m.insert("bare".to_owned(), target(DEVICE, None, false));
    m.insert("static".to_owned(), RelayTarget::Static("http://x".to_owned()));
    m.insert(
        "managed".to_owned(),
        RelayTarget::StaticManaged {
            url: "http://y".to_owned(),
            probe_path: "/".to_owned(),
            probe_method: ProbeMethod::Http,
        },
    );
    RelayState::new(m)
}

fn refusal(name: &str) -> (u16, String) {
    match start_target_handler(name, &state(), &network(&[])) {
        StartDecision::Answer(r) => match r.body {
            Body::Error(e) => {
                assert_eq!(e.status, "error");
                assert_eq!(e.target, name);
                (r.status, e.message)
            },
            other => panic!("{:?}", other),
        },
        other => panic!("{:?}", other),
    }
}

#[test]
fn start_of_an_unknown_target_is_not_found() {
    assert_eq!(refusal("nope"), (404, "Unknown target: 'nope'".to_owned()));
}

#[test]
fn start_of_what_cannot_be_started_is_a_bad_request() {
    assert_eq!(
        refusal("static"),
        (400, "Static target 'http://x' does not support remote start".to_owned())
    );
    assert_eq!(
        refusal("managed"),
        (400, "Static managed target 'http://y' does not support remote start".to_owned())
    );
    assert_eq!(
        refusal("bare"),
        (400, "MAC-based target does not have 'wol_enabled: true' or 'shelly_power_mac' configured for remote start".to_owned())
    );
}

#[test]
fn wake_on_lan_takes_precedence_over_the_plug() {
    let t = target(DEVICE, Some(PLUG), true);
    let s = create_starter(&t, &network(&[])).unwrap();
    assert_eq!(s.description(), "Wake-on-LAN");
    match s {
        StarterType::WakeOnLan(w) => {
            assert_eq!(w.mac, DEVICE);
            assert_eq!(w.broadcast_addr, "192.168.1.255:9");
        },
        other => panic!("{:?}", other),
    }
}

#[test]
fn plug_is_used_without_wake_on_lan() {
    let st = state();
    match start_target_handler("plug", &st, &network(&[])) {
        StartDecision::Start(s) => {
            assert_eq!(s.description(), "Shelly smart plug");
            match &s {
                StarterType::Shelly(p) => assert_eq!((p.mac, p.target_mac), (PLUG, DEVICE)),
                other => panic!("{:?}", other),
            }
            assert!(matches!(
                s.start(&network(&[(PLUG, 45)])),
                StartStep::Shelly(ShellyStep::ReadStatus { .. })
            ));
        },
        other => panic!("{:?}", other),
    }
}

fn failure(r: Reply) -> (u16, String, String, String) {
    match r.body {
        Body::Failure(f) => {
            assert_eq!(f.status, "error");
            assert_eq!(f.target, "pc");
            (r.status, f.starter_type, f.error, f.message)
        },
        other => panic!("{:?}", other),
    }
}

#[test]
fn finished_start_is_answered() {
    let t = target(DEVICE, Some(PLUG), false);
    let s = create_starter(&t, &network(&[])).unwrap();
    let r = answer_start("pc", &s, Ok(()));
    assert_eq!(r.status, 200);
    match r.body {
        Body::Success(b) => {
            assert_eq!(b.status, "success");
            assert_eq!(b.target, "pc");
            assert_eq!(b.starter_type, "Shelly smart plug");
            assert_eq!(b.message, "Target 'pc' has been started");
        },
        other => panic!("{:?}", other),
    }
}

#[test]
fn absent_plug_is_answered_as_unavailable() {
    let t = target(DEVICE, Some(PLUG), false);
    let s = create_starter(&t, &network(&[])).unwrap();
    let e = match s.start(&network(&[])) {
        StartStep::Shelly(step) => message(step),
        other => panic!("{:?}", other),
    };
    let (status, kind, error, text) = failure(answer_start("pc", &s, Err(e)));
    assert_eq!((status, kind.as_str(), error.as_str()), (503, "Shelly smart plug", "device_offline"));
    assert_eq!(text, "Shelly device with MAC 11:22:33:44:55:66 not found on network");
}

#[test]
fn other_failures_are_answered_as_errors() {
    let t = target(DEVICE, None, true);
    let s = create_starter(&t, &network(&[])).unwrap();
    let (status, kind, error, text) = failure(answer_start("pc", &s, Err("no route".to_owned())));
    assert_eq!((status, kind.as_str(), error.as_str()), (500, "Wake-on-LAN", "start_failed"));
    assert_eq!(text, "no route");
}
