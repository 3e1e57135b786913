use labbridger::app_config::{ProbeMethod, RelayTarget, SshShutdownConfig, TargetOs};
use labbridger::assoc_map::{IpMap, StringMap};
use labbridger::http_outcome::HttpOutcome;
use labbridger::ip::Ipv4Addr;
use labbridger::network_scanner::{DeviceInfo, NetworkScanner, Timestamp};
use labbridger::relay::RelayState;
use labbridger::reply::{Body, Reply};
use labbridger::target_stoppable::Stoppable;
use labbridger::target_stopper::{
    exit_message, shutdown_refused, stop_target_handler, CompositeStoppable, RestApiStoppable,
    SshOutcome, SshStoppable, StopStep,
};

const DEVICE: &str = "cc:dd:ee:ff:11:22";
const PLUG: &str = "11:22:33:44:55:66";
const SECOND: u64 = 1_000_000_000;

fn network(present: bool) -> NetworkScanner {
    let mut scan = IpMap::new();
    if present {
        scan.insert(
            Ipv4Addr { a: 192, b: 168, c: 1, d: 9 },
            DeviceInfo {
                mac_address: Some(DEVICE.to_owned()),
                discovered_at: Timestamp { secs: 1, nanos: 0 },
            },
        );
    }
    let mut s = NetworkScanner::new("192.168.1".to_owned());
    s.complete_scan(&scan);
    s
}

fn ssh(os: TargetOs) -> SshShutdownConfig {
    SshShutdownConfig {
        os,
        port: 22,
        username: "root".to_owned(),
        key_file: None,
        password: None,
        command: None,
    }
}

fn composite(plug: bool, with_ssh: bool, path: Option<&str>) -> CompositeStoppable {
    CompositeStoppable::new(
        "tv_box".to_owned(),
        DEVICE.to_owned(),
        8080,
        if plug { Some(PLUG.to_owned()) } else { None },
        if with_ssh { Some(ssh(TargetOs::Linux)) } else { None },
        path.map(str::to_owned),
    )
}

// ── SSH ──────────────────────────────────────────────────────────────────────

#[test]
fn default_command_depends_on_the_system() {
    let s = SshStoppable::from_config("h".to_owned(), &ssh(TargetOs::Linux));
    assert_eq!(s.command, "sudo poweroff");
    let s = SshStoppable::from_config("h".to_owned(), &ssh(TargetOs::Windows));
    assert_eq!(s.command, "shutdown /s /t 0");
    let mut config = ssh(TargetOs::Windows);
    config.command = Some("halt".to_owned());
    assert_eq!(SshStoppable::from_config("h".to_owned(), &config).command, "halt");
}

#[test]
fn key_based_command_line() {
    let mut config = ssh(TargetOs::Linux);
    config.key_file = Some("/root/.ssh/id".to_owned());
    config.port = 2222;
    let c = SshStoppable::from_config("192.168.1.9".to_owned(), &config).stop(&network(true), 0);
    assert_eq!(c.program, "ssh");
    assert!(c.env.is_none());
    assert_eq!(
        c.args,
        vec![
            "-o", "StrictHostKeyChecking=no", "-o", "UserKnownHostsFile=/dev/null", "-o",
            "ConnectTimeout=5", "-o", "BatchMode=yes", "-p", "2222", "-i", "/root/.ssh/id",
            "root@192.168.1.9", "sudo poweroff",
        ]
    );
}

#[test]
fn password_based_command_line() {
    let mut config = ssh(TargetOs::Windows);
    config.password = Some("s3cret".to_owned());
    config.key_file = Some("/ignored".to_owned());
    let c = SshStoppable::from_config("192.168.1.9".to_owned(), &config).stop(&network(true), 0);
    assert_eq!(c.program, "sshpass");
    assert_eq!(c.env, Some(("SSHPASS".to_owned(), "s3cret".to_owned())));
    assert_eq!(
        c.args,
        vec![
            "-e", "ssh", "-o", "StrictHostKeyChecking=no", "-o", "UserKnownHostsFile=/dev/null",
            "-o", "ConnectTimeout=5", "-o", "BatchMode=no", "-o", "PubkeyAuthentication=no", "-p",
            "22", "root@192.168.1.9", "shutdown /s /t 0",
        ]
    );
    assert!(c.args.iter().all(|a| a != "s3cret"));
}

#[test]
fn closed_connection_counts_as_success() {
    let s = SshStoppable::from_config("h".to_owned(), &ssh(TargetOs::Linux));
    for code in [0, 255] {
        let outcome = SshOutcome::Exited { code: Some(code), stderr: b"bye".to_vec() };
        assert_eq!(s.finish(outcome), Ok(()));
    }
}

#[test]
fn failed_command_is_reported_with_its_output() {
    let s = SshStoppable::from_config("h".to_owned(), &ssh(TargetOs::Linux));
    let outcome = SshOutcome::Exited { code: Some(5), stderr: b"\n denied\xff \n".to_vec() };
    assert_eq!(
        s.finish(outcome),
        Err("SSH command exited with 5: denied\u{fffd}".to_owned())
    );
    let outcome = SshOutcome::Exited { code: None, stderr: Vec::new() };
    assert_eq!(s.finish(outcome), Err("SSH command exited with -1: ".to_owned()));
    assert_eq!(exit_message(Some(3), " x\t"), "SSH command exited with 3: x");
}

#[test]
fn command_that_does_not_run_is_reported() {
    let mut s = SshStoppable::from_config("h".to_owned(), &ssh(TargetOs::Linux));
    let missing = || SshOutcome::NotRun("not found".to_owned());
    assert_eq!(s.finish(missing()), Err("Failed to execute ssh command: not found".to_owned()));
    s.password = Some("p".to_owned());
    assert_eq!(
        s.finish(missing()),
        Err("Failed to execute sshpass/ssh command (is sshpass installed?): not found".to_owned())
    );
}

// ── Shutdown requests ────────────────────────────────────────────────────────

#[test]
fn shutdown_request_is_posted() {
    let r = RestApiStoppable::new("192.168.1.9", 8080, "//api/shutdown");
    let step = r.stop(&network(true), 0);
    assert_eq!(step.url, "http://192.168.1.9:8080/api/shutdown");
    assert_eq!(step.timeout_secs, 10);
    assert_eq!(r.finish(HttpOutcome::Answered(202)), Ok(()));
    assert_eq!(
        r.finish(HttpOutcome::Answered(403)),
        Err("Shutdown API responded with status: 403 Forbidden".to_owned())
    );
    assert_eq!(
        r.finish(HttpOutcome::Failed("refused".to_owned())),
        Err("Failed to send shutdown request to http://192.168.1.9:8080/api/shutdown: refused"
            .to_owned())
    );
    assert_eq!(shutdown_refused("x"), "Shutdown API responded with status: x");
}

// ── The whole sequence ───────────────────────────────────────────────────────

#[test]
fn ssh_takes_precedence_over_a_request() {
    match composite(true, true, Some("/off")).stop(&network(true), 0) {
        StopStep::Ssh(s) => assert_eq!((s.host.as_str(), s.port), ("192.168.1.9", 22)),
        other => panic!("{:?}", other),
    }
    match composite(true, false, Some("/off")).stop(&network(true), 0) {
        StopStep::Rest(r) => assert_eq!(r.url, "http://192.168.1.9:8080/off"),
        other => panic!("{:?}", other),
    }
}

#[test]
fn absent_device_goes_straight_to_the_plug() {
    match composite(true, true, Some("/off")).stop(&network(false), 0) {
        StopStep::Plug(p) => assert_eq!(p.shelly_mac, PLUG),
        other => panic!("{:?}", other),
    }
    assert!(matches!(
        composite(false, true, None).stop(&network(false), 0),
        StopStep::Done(Ok(()))
    ));
}

#[test]
fn plug_alone_cuts_the_power_at_once() {
    for present in [true, false] {
        match composite(true, false, None).stop(&network(present), 7) {
            StopStep::Plug(p) => assert_eq!(p.shelly_mac, PLUG),
            other => panic!("{:?}", other),
        }
    }
}

#[test]
fn wait_has_a_deadline_of_five_minutes() {
    match composite(true, true, None).after_graceful(Ok(()), &network(true), 7) {
        StopStep::Wait { secs, deadline } => {
            assert_eq!(secs, 10);
            assert_eq!(deadline, 7 + 300 * SECOND as u128);
        },
        other => panic!("{:?}", other),
    }
}

#[test]
fn errors_do_not_abort_the_sequence() {
    let c = composite(true, true, None);
    let failed = || Err("denied".to_owned());
    assert!(matches!(c.after_graceful(failed(), &network(true), 0), StopStep::Wait { .. }));
    assert!(matches!(c.after_graceful(failed(), &network(false), 0), StopStep::Plug(_)));
    assert!(matches!(c.after_plug(failed()), StopStep::Done(Ok(()))));
}

#[test]
fn without_a_plug_nothing_is_waited_for() {
    let c = composite(false, true, None);
    assert!(matches!(c.after_graceful(Ok(()), &network(true), 0), StopStep::Done(Ok(()))));
}

#[test]
fn wait_ends_when_the_device_is_offline_or_time_is_up() {
    let c = composite(true, true, None);
    let deadline = 300 * SECOND as u128;
    assert!(matches!(
        c.after_wait(&network(true), 300 * SECOND - 1, deadline),
        StopStep::Wait { .. }
    ));
    assert!(matches!(c.after_wait(&network(true), 300 * SECOND, deadline), StopStep::Plug(_)));
    assert!(matches!(c.after_wait(&network(false), 1, deadline), StopStep::Plug(_)));
}

#[test]
fn thirty_waits_at_most() {
    let c = composite(true, true, None);
    let mut now: u64 = 5;
    let mut waits = 0;
    let mut step = c.after_graceful(Ok(()), &network(true), now);
    while let StopStep::Wait { secs, deadline } = step {
        waits += 1;
        now += secs * SECOND;
        step = c.after_wait(&network(true), now, deadline);
    }
    assert_eq!(waits, 30);
    assert!(matches!(step, StopStep::Plug(_)));
}

fn run(c: &CompositeStoppable) -> Vec<&'static str> {
    let mut names = Vec::new();
    let mut now: u64 = 0;
    let mut step = c.stop(&network(true), now);
    loop {
        step = match step {
            StopStep::Ssh(_) => {
                names.push("ssh");
                c.after_graceful(Err("denied".to_owned()), &network(true), now)
            },
            StopStep::Rest(_) => {
                names.push("rest");
                c.after_graceful(Ok(()), &network(true), now)
            },
            StopStep::Wait { secs, deadline } => {
                names.push("wait");
                now += secs * SECOND;
                c.after_wait(&network(now < 20 * SECOND), now, deadline)
            },
            StopStep::Plug(p) => {
                assert_eq!(p.shelly_mac, PLUG);
                names.push("plug");
                c.after_plug(Err("unreachable".to_owned()))
            },
            StopStep::Done(result) => {
                assert_eq!(result, Ok(()));
                names.push("done");
                return names;
            },
        };
    }
}

#[test]
fn power_is_cut_once_and_last() {
    assert_eq!(run(&composite(true, true, None)), vec!["ssh", "wait", "wait", "plug", "done"]);
    assert_eq!(run(&composite(true, false, None)), vec!["plug", "done"]);
    assert_eq!(run(&composite(false, false, Some("/off"))), vec!["rest", "done"]);
}

// ── Stop requests ────────────────────────────────────────────────────────────

fn target(plug: bool, plug_off: bool, with_ssh: bool, path: Option<&str>) -> RelayTarget {
    RelayTarget::Mac {
        mac: DEVICE.to_owned(),
        port: 22,
        probe_path: "/".to_owned(),
        shelly_power_mac: if plug { Some(PLUG.to_owned()) } else { None },
        wol_enabled: false,
        probe_method: ProbeMethod::Ping,
        shutdown_ssh: if with_ssh { Some(ssh(TargetOs::Linux)) } else { None },
        shutdown_api_path: path.map(str::to_owned),
        shutdown_plug_off: plug_off,
    }
}

fn decide(target: Option<RelayTarget>) -> (Reply, Option<CompositeStoppable>) {
    let mut m = StringMap::new();
    if let Some(t) = target {
        m.insert("box".to_owned(), t);
    }
    let d = stop_target_handler("box".to_owned(), &RelayState::new(m));
    (d.reply, d.stopper)
}

fn refusal(target: Option<RelayTarget>) -> (u16, String) {
    let (reply, stopper) = decide(target);
    assert!(stopper.is_none());
    match reply.body {
        Body::Error(e) => {
            assert_eq!((e.status.as_str(), e.target.as_str()), ("error", "box"));
            (reply.status, e.message)
        },
        other => panic!("{:?}", other),
    }
}

#[test]
fn stop_of_an_unknown_target_is_not_found() {
    assert_eq!(refusal(None), (404, "Unknown target".to_owned()));
}

#[test]
fn stop_of_a_fixed_url_is_a_bad_request() {
    let expected = (400, "Static targets do not support remote stop".to_owned());
    assert_eq!(refusal(Some(RelayTarget::Static("http://x".to_owned()))), expected);
    let managed = RelayTarget::StaticManaged {
        url: "http://x".to_owned(),
        probe_path: "/".to_owned(),
        probe_method: ProbeMethod::Http,
    };
    assert_eq!(refusal(Some(managed)), expected);
}

#[test]
fn stop_without_a_method_is_a_bad_request() {
    let expected = (
        400,
        "Target has no stop methods configured (need shelly_power_mac, shutdown_ssh, or shutdown_api_path)"
            .to_owned(),
    );
    assert_eq!(refusal(Some(target(false, false, false, None))), expected);
    assert_eq!(refusal(Some(target(false, true, false, None))), expected);
    // A plug that only starts the device does not stop it.
    assert_eq!(refusal(Some(target(true, false, false, None))), expected);
}

#[test]
fn accepted_stop_is_answered_at_once() {
    let (reply, stopper) = decide(Some(target(true, true, true, Some("/off"))));
    assert_eq!(reply.status, 204);
    assert!(matches!(reply.body, Body::Empty));
    let s = stopper.unwrap();
    assert_eq!(s.target_name, "box");
    assert_eq!(s.target_mac, DEVICE);
    assert_eq!(s.target_port, 22);
    assert_eq!(s.shelly_mac.as_deref(), Some(PLUG));
    assert_eq!(s.shutdown_ssh.unwrap().username, "root");
    assert_eq!(s.shutdown_api_path.as_deref(), Some("/off"));
}

#[test]
fn plug_stays_on_unless_told_otherwise() {
    let (reply, stopper) = decide(Some(target(true, false, true, None)));
    assert_eq!(reply.status, 204);
    assert_eq!(stopper.unwrap().shelly_mac, None);
}
