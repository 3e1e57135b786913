use labbridger::app_config::{
    default_probe_method, default_probe_path, default_ssh_port, default_target_os,
    default_token_ttl_seconds, ProbeMethod, RelaySettings, RelayTarget, ServerSettings,
    SshShutdownConfig, TargetOs, UserConfig,
};
use labbridger::assoc_map::IpMap;
use labbridger::auth::AuthState;
use labbridger::ip::Ipv4Addr;
use labbridger::network_scanner::{DeviceInfo, NetworkScanner, Timestamp};
use labbridger::reply::Body;
use labbridger::server::{authorize, get_latest, health, unauthorized, write_bind_address};

fn guarded() -> AuthState {
    let user = UserConfig { username: "a".to_owned(), password_hash: "h".to_owned() };
    AuthState::new(vec![user], 60)
}

#[test]
fn settings_have_their_defaults() {
    assert_eq!(default_token_ttl_seconds(), 3600);
    assert_eq!(default_probe_path(), "/");
    assert_eq!(default_probe_method(), ProbeMethod::Http);
    assert_eq!(default_ssh_port(), 22);
    assert_eq!(default_target_os(), TargetOs::Linux);
    assert_eq!(RelaySettings::default().targets.len(), 0);
}

#[test]
fn shutdown_command_of_each_system() {
    assert_eq!(TargetOs::Linux.default_shutdown_command(), "sudo poweroff");
    assert_eq!(TargetOs::Windows.default_shutdown_command(), "shutdown /s /t 0");
}

#[test]
fn target_is_copied_whole() {
    let t = RelayTarget::Mac {
        mac: "m".to_owned(),
        port: 1,
        probe_path: "p".to_owned(),
        shelly_power_mac: Some("s".to_owned()),
        wol_enabled: true,
        probe_method: ProbeMethod::Ping,
        shutdown_ssh: Some(SshShutdownConfig {
            os: TargetOs::Windows,
            port: 2,
            username: "u".to_owned(),
            key_file: Some("k".to_owned()),
            password: None,
            command: Some("c".to_owned()),
        }),
        shutdown_api_path: Some("a".to_owned()),
        shutdown_plug_off: true,
    };
    assert_eq!(format!("{:?}", t.clone()), format!("{:?}", t));
}

#[test]
fn public_paths_need_no_token() {
    let auth = guarded();
    assert!(authorize(&auth, "/login", None, 0));
    assert!(authorize(&auth, "/health", None, 0));
    for path in ["/", "/login/", "/logout", "/devices", "/Health", "/relay/x"] {
        assert!(!authorize(&auth, path, None, 0), "{}", path);
    }
}

#[test]
fn private_paths_need_a_token() {
    let mut auth = guarded();
    auth.store_token("t".to_owned(), 0);
    assert!(authorize(&auth, "/devices", Some(b"Bearer t"), 1));
    assert!(!authorize(&auth, "/devices", Some(b"Bearer u"), 1));
    assert!(!authorize(&auth, "/devices", Some(b"Bearer t"), 60_000_000_000));
    assert!(authorize(&AuthState::new(Vec::new(), 60), "/devices", None, 0));
}

#[test]
fn refused_requests_are_challenged() {
    let r = unauthorized();
    assert_eq!(r.status, 401);
    assert_eq!(r.challenge.as_deref(), Some("Bearer realm=\"rust-server2\""));
    match r.body {
        Body::Plain(t) => assert_eq!(t, "Unauthorized: POST /login to obtain a token"),
        other => panic!("{:?}", other),
    }
}

#[test]
fn health_is_a_page() {
    let r = health();
    assert_eq!(r.status, 200);
    match r.body {
        Body::Html(page) => {
            assert!(page.starts_with("<!DOCTYPE html>\n<html lang=\"en\">\n<head>"));
            assert!(page.contains("<p>Server is up and running.</p>"));
            assert!(page.ends_with("</body>\n</html>"));
        },
        other => panic!("{:?}", other),
    }
}

#[test]
fn latest_device_is_answered_once_there_is_one() {
    let mut s = NetworkScanner::new("192.168.1".to_owned());
    let (status, device) = get_latest(&s);
    assert_eq!(status, 204);
    assert!(device.is_none());
    let mut scan = IpMap::new();
    let at = Ipv4Addr { a: 192, b: 168, c: 1, d: 7 };
    scan.insert(
        at,
        DeviceInfo { mac_address: None, discovered_at: Timestamp { secs: 1, nanos: 2 } },
    );
    s.complete_scan(&scan);
    let (status, device) = get_latest(&s);
    assert_eq!(status, 200);
    assert_eq!(device.as_ref().unwrap().ip, at);
}

#[test]
fn bind_address_is_host_and_port() {
    let s = ServerSettings { host: "0.0.0.0".to_owned(), port: 8080, token_ttl_seconds: 1 };
    assert_eq!(write_bind_address(&s), "0.0.0.0:8080");
}
