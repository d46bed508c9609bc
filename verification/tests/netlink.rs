use std::cell::RefCell;
use std::rc::Rc;

use gr3sync::netlink::{
    airport_restoring, backend_available, backend_named, backends, could_not_run, get_backend,
    judge, nmcli_restoring, parse_active, parse_current_network, parse_devices,
    parse_hardware_ports, Backend, Host, Manual, Networksetup, Nmcli, NmcliJoin, Output, Runner,
    WifiBackend, WifiState,
};
use gr3sync::procedure::Step;
use gr3sync::{Error, Result};

const NMCLI_DEVICES: &str =
    "wlp3s0:wifi:connected\neno1:ethernet:connected\nlo:loopback:unmanaged\n";
const NMCLI_ACTIVE: &str =
    "Home Fibre:802-11-wireless:wlp3s0\nWired connection 1:802-3-ethernet:eno1\n";
const MACOS_PORTS: &str =
    "Hardware Port: Ethernet\nDevice: en0\n\nHardware Port: Wi-Fi\nDevice: en1\n";

/// Records argv and replays canned stdout keyed by a command fragment.
struct FakeRunner {
    responses: Vec<(&'static str, &'static str)>,
    failures: Vec<&'static str>,
    calls: RefCell<Vec<Vec<String>>>,
}

impl FakeRunner {
    fn new(responses: Vec<(&'static str, &'static str)>) -> Self {
        Self {
            responses,
            failures: Vec::new(),
            calls: RefCell::new(Vec::new()),
        }
    }

    fn failing(mut self, fragment: &'static str) -> Self {
        self.failures.push(fragment);
        self
    }

    fn calls(&self) -> Vec<Vec<String>> {
        self.calls.borrow().clone()
    }

    fn joined(&self) -> Vec<String> {
        self.calls().iter().map(|c| c.join(" ")).collect()
    }
}

impl Runner for FakeRunner {
    fn run(&self, argv: &[&str], _timeout: u64) -> Result<Output> {
        self.calls
            .borrow_mut()
            .push(argv.iter().map(|s| s.to_string()).collect());
        let joined = argv.join(" ");
        for (fragment, stdout) in &self.responses {
            if joined.contains(fragment) {
                let failing = self.failures.contains(fragment);
                return Ok(Output {
                    status: if failing { 1 } else { 0 },
                    stdout: stdout.to_string(),
                    stderr: if failing {
                        "boom".into()
                    } else {
                        String::new()
                    },
                });
            }
        }
        Ok(Output {
            status: 0,
            stdout: String::new(),
            stderr: String::new(),
        })
    }
}

struct SharedRunner(Rc<FakeRunner>);

impl Runner for SharedRunner {
    fn run(&self, argv: &[&str], timeout: u64) -> Result<Output> {
        self.0.run(argv, timeout)
    }
}

/// Fails on any command, for asserting that nothing shells out.
struct ForbiddenRunner;

impl Runner for ForbiddenRunner {
    fn run(&self, argv: &[&str], _timeout: u64) -> Result<Output> {
        panic!("unexpected command: {}", argv.join(" "));
    }
}

fn host(linux: bool) -> Host {
    Host {
        linux,
        nmcli_on_path: linux,
        macos: !linux,
        networksetup_exists: !linux,
    }
}

fn nmcli_backend() -> (Nmcli<SharedRunner>, Rc<FakeRunner>) {
    let fake = Rc::new(FakeRunner::new(vec![
        ("-f DEVICE,TYPE,STATE device", NMCLI_DEVICES),
        ("connection show --active", NMCLI_ACTIVE),
    ]));
    (Nmcli::new(SharedRunner(fake.clone())), fake)
}

#[test]
fn nmcli_reads_the_active_wireless_connection() {
    let (backend, _) = nmcli_backend();
    let state = backend.current().unwrap();
    assert_eq!(state.ssid.as_deref(), Some("Home Fibre"));
    assert_eq!(state.interface.as_deref(), Some("wlp3s0"));
}

#[test]
fn nmcli_ignores_the_ethernet_connection() {
    let (backend, _) = nmcli_backend();
    assert_ne!(
        backend.current().unwrap().ssid.as_deref(),
        Some("Wired connection 1")
    );
}

#[test]
fn nmcli_join_keeps_ssid_and_passphrase_as_separate_argv() {
    // A passphrase with a space must not be split, and must never be
    // interpolated into a shell string.
    let (backend, fake) = nmcli_backend();
    backend.join("GR_4CF5C6", "s3cr3t p@ss", None).unwrap();
    let connect = fake
        .calls()
        .into_iter()
        .find(|c| c.contains(&"connect".to_string()))
        .expect("no connect call");
    assert_eq!(
        connect,
        vec![
            "nmcli",
            "device",
            "wifi",
            "connect",
            "GR_4CF5C6",
            "password",
            "s3cr3t p@ss",
            "ifname",
            "wlp3s0"
        ]
    );
}

#[test]
fn nmcli_rescans_before_connecting() {
    let (backend, fake) = nmcli_backend();
    backend.join("GR_4CF5C6", "pw", None).unwrap();
    let joined = fake.joined();
    let rescan = joined
        .iter()
        .position(|c| c.contains("rescan"))
        .expect("no rescan");
    let connect = joined
        .iter()
        .position(|c| c.contains("connect"))
        .expect("no connect");
    assert!(rescan < connect);
}

#[test]
fn nmcli_restore_brings_the_saved_profile_back_up() {
    let (backend, fake) = nmcli_backend();
    backend
        .restore(&WifiState {
            interface: Some("wlp3s0".into()),
            ssid: Some("Home Fibre".into()),
            profile: Some("Home Fibre".into()),
        })
        .unwrap();
    assert!(fake
        .joined()
        .iter()
        .any(|c| c == "nmcli connection up Home Fibre ifname wlp3s0"));
}

#[test]
fn nmcli_restore_is_a_noop_without_a_profile() {
    let (backend, fake) = nmcli_backend();
    backend.restore(&WifiState::default()).unwrap();
    assert!(fake.calls().is_empty());
}

#[test]
fn nmcli_join_failure_is_reported() {
    let fake = Rc::new(
        FakeRunner::new(vec![
            ("-f DEVICE,TYPE,STATE device", NMCLI_DEVICES),
            ("device wifi connect", ""),
        ])
        .failing("device wifi connect"),
    );
    let backend = Nmcli::new(SharedRunner(fake));
    let err = backend.join("GR_4CF5C6", "pw", None).unwrap_err();
    assert!(err.message().contains("failed"), "{err:?}");
    assert!(err.message().contains("boom"), "{err:?}");
}

#[test]
fn networksetup_finds_the_wifi_port_not_the_ethernet_one() {
    assert_eq!(parse_hardware_ports(MACOS_PORTS).as_deref(), Some("en1"));
    assert_eq!(
        parse_hardware_ports("Hardware Port: Ethernet\nDevice: en0\n"),
        None
    );
}

#[test]
fn networksetup_parses_the_current_network() {
    assert_eq!(
        parse_current_network("Current Wi-Fi Network: Home Fibre\n").as_deref(),
        Some("Home Fibre")
    );
    // Not associated: macOS says so in prose, and an SSID must not be
    // invented from it.
    assert_eq!(
        parse_current_network("You are not associated with an AirPort network.\n"),
        None
    );
}

#[test]
fn networksetup_join_argv() {
    let fake = Rc::new(FakeRunner::new(vec![(
        "-listallhardwareports",
        MACOS_PORTS,
    )]));
    let backend = Networksetup::new(SharedRunner(fake.clone()));
    backend.join("GR_4CF5C6", "pw", None).unwrap();
    assert!(fake
        .joined()
        .iter()
        .any(|c| c == "/usr/sbin/networksetup -setairportnetwork en1 GR_4CF5C6 pw"));
}

#[test]
fn networksetup_restore_omits_the_passphrase() {
    let fake = Rc::new(FakeRunner::new(vec![(
        "-listallhardwareports",
        MACOS_PORTS,
    )]));
    let backend = Networksetup::new(SharedRunner(fake.clone()));
    backend
        .restore(&WifiState {
            interface: Some("en1".into()),
            ssid: Some("Home Fibre".into()),
            profile: Some("Home Fibre".into()),
        })
        .unwrap();
    assert!(fake
        .joined()
        .iter()
        .any(|c| c == "/usr/sbin/networksetup -setairportnetwork en1 Home Fibre"));
}

#[test]
fn networksetup_join_failure_is_reported() {
    let fake = Rc::new(
        FakeRunner::new(vec![
            ("-listallhardwareports", MACOS_PORTS),
            ("-setairportnetwork", ""),
        ])
        .failing("-setairportnetwork"),
    );
    let backend = Networksetup::new(SharedRunner(fake));
    let err = backend.join("GR_4CF5C6", "pw", None).unwrap_err();
    assert!(err.message().contains("failed (1): boom"), "{err:?}");
}

#[test]
fn networksetup_reads_the_current_network() {
    let fake = Rc::new(FakeRunner::new(vec![
        ("-listallhardwareports", MACOS_PORTS),
        (
            "-getairportnetwork en1",
            "Current Wi-Fi Network: Home Fibre\n",
        ),
    ]));
    let backend = Networksetup::new(SharedRunner(fake));
    let state = backend.current().unwrap();
    assert_eq!(state.interface.as_deref(), Some("en1"));
    assert_eq!(state.ssid.as_deref(), Some("Home Fibre"));
    assert_eq!(backend.name(), "networksetup");
    assert!(!backend.interactive());
}

#[test]
fn manual_is_last_so_automatic_backends_win() {
    assert_eq!(backends().last().unwrap().name(), "manual");
    assert!(backend_available(
        "manual",
        &ForbiddenRunner,
        &host(false)
    ));
}

#[test]
fn an_unknown_backend_name_is_rejected() {
    let Err(err) = get_backend(Some("carrier-pigeon"), &ForbiddenRunner, &host(true)) else {
        panic!("an unknown backend name must be rejected");
    };
    assert!(err.message().contains("unknown"), "{err:?}");
    assert!(!backend_available(
        "carrier-pigeon",
        &ForbiddenRunner,
        &host(true)
    ));
    assert!(backend_named("carrier-pigeon").is_none());
    // The name is quoted as Rust would quote it.
    let err = get_backend(Some("a\"b\n"), &ForbiddenRunner, &host(true)).unwrap_err();
    assert!(err.message().contains(r#""a\"b\n""#), "{err:?}");
}

#[test]
fn the_first_backend_that_works_is_picked() {
    let wifi = FakeRunner::new(vec![("device", NMCLI_DEVICES)]);
    let wired = FakeRunner::new(vec![("device", "eno1:ethernet:connected\n")]);
    assert_eq!(
        get_backend(None, &wifi, &host(true)).unwrap(),
        Backend::Nmcli
    );
    assert_eq!(
        get_backend(None, &wired, &host(true)).unwrap(),
        Backend::Manual
    );
    assert_eq!(
        get_backend(None, &ForbiddenRunner, &host(false)).unwrap(),
        Backend::Networksetup
    );
    assert_eq!(
        get_backend(Some("manual"), &ForbiddenRunner, &host(false)).unwrap(),
        Backend::Manual
    );
}

#[test]
fn the_operator_is_told_what_to_do() {
    let prompt = Manual.join_prompt("GR_4CF5C6", "s3cr3t");
    assert!(prompt.contains("GR_4CF5C6") && prompt.contains("s3cr3t"), "{prompt}");
    assert!(Manual.interactive());
    assert_eq!(Manual.name(), "manual");
    assert_eq!(Manual.current(), WifiState::default());
    assert!(!Manual.restore_notice().is_empty());
}

#[test]
fn listings_are_read_line_by_line() {
    assert_eq!(parse_devices(NMCLI_DEVICES).as_deref(), Some("wlp3s0"));
    assert_eq!(parse_devices("eno1:ethernet:connected\n"), None);
    let state = parse_active(Some("wlp3s0".into()), NMCLI_ACTIVE);
    assert_eq!(state.profile.as_deref(), Some("Home Fibre"));
    let none = parse_active(Some("wlp3s0".into()), "");
    assert_eq!(none.ssid, None);
    assert_eq!(none.interface.as_deref(), Some("wlp3s0"));
}

#[test]
fn a_command_is_judged_by_its_status() {
    let output = |status: i32, stdout: &str, stderr: &str| {
        Ok(Output {
            status,
            stdout: stdout.into(),
            stderr: stderr.into(),
        })
    };
    let argv = vec!["nmcli", "device"];
    assert!(judge(&argv, output(0, "x", "")).is_ok());
    let err = judge(&argv, output(10, "said here\n", "")).unwrap_err();
    assert!(matches!(err, Error::Network(_)));
    assert!(err.message().contains("said here"), "{err:?}");
    assert!(judge(&argv, Err(Error::Network("gone".into()))).is_err());
}

#[test]
fn a_missing_tool_becomes_a_network_error() {
    let error = could_not_run(&["definitely-not-a-real-binary-xyz"], true, "no such file");
    assert!(matches!(error, Error::Network(_)));
    assert!(error.message().contains("not found on PATH"));
    assert_eq!(
        could_not_run(&["nmcli", "-t"], true, "").message(),
        "nmcli not found on PATH"
    );
}

#[test]
fn a_command_that_cannot_be_run_says_why() {
    assert_eq!(
        could_not_run(&["nmcli", "-t"], false, "permission denied").message(),
        "nmcli -t: permission denied"
    );
    assert_eq!(could_not_run(&[], true, "").message(), "empty command");
}

fn ran_well(stdout: &str) -> Result<Output> {
    Ok(Output {
        status: 0,
        stdout: stdout.into(),
        stderr: String::new(),
    })
}

#[test]
fn joining_goes_from_the_device_to_a_rescan_to_the_connection() {
    let mut state = NmcliJoin::start(None);
    let mut outs = vec![
        ran_well(NMCLI_DEVICES),
        Err(Error::Network("a scan is in flight".into())),
        ran_well(""),
    ]
    .into_iter();
    let mut commands = Vec::new();
    let result = loop {
        let command = state.command("GR_4CF5C6", "two words");
        commands.push((command.argv.join("|"), command.timeout));
        match state.next("GR_4CF5C6", "two words", outs.next().unwrap()) {
            Step::More(next) => state = next,
            Step::Done(result) => break result,
        }
    };
    assert!(result.is_ok());
    assert_eq!(
        commands,
        vec![
            ("nmcli|-t|-f|DEVICE,TYPE,STATE|device".to_string(), 10_000),
            ("nmcli|device|wifi|rescan|ifname|wlp3s0".to_string(), 20_000),
            (
                "nmcli|device|wifi|connect|GR_4CF5C6|password|two words|ifname|wlp3s0".to_string(),
                60_000
            ),
        ]
    );
    assert!(matches!(
        NmcliJoin::start(Some("wlan1")),
        NmcliJoin::Rescan { .. }
    ));
}

#[test]
fn nothing_is_run_where_there_is_nothing_to_restore() {
    let nowhere = WifiState::default();
    assert!(nmcli_restoring(&nowhere).is_empty());
    assert!(airport_restoring(&nowhere).is_empty());
    let home = WifiState {
        interface: Some("en1".into()),
        ssid: Some("Home Fibre".into()),
        profile: Some("Home".into()),
    };
    let commands = nmcli_restoring(&home);
    assert_eq!(commands.len(), 1);
    assert_eq!(
        commands[0].argv,
        vec!["nmcli", "connection", "up", "Home", "ifname", "en1"]
    );
    let commands = airport_restoring(&home);
    assert_eq!(commands.len(), 1);
    assert_eq!(
        commands[0].argv,
        vec![
            "/usr/sbin/networksetup",
            "-setairportnetwork",
            "en1",
            "Home Fibre"
        ]
    );
}

#[test]
fn only_a_restore_that_has_to_succeed_is_judged_by_its_exit() {
    let home = WifiState {
        interface: Some("en1".into()),
        ssid: Some("Home Fibre".into()),
        profile: Some("Home".into()),
    };
    let fake = || {
        Rc::new(
            FakeRunner::new(vec![("connection up", ""), ("-setairportnetwork", "")])
                .failing("connection up")
                .failing("-setairportnetwork"),
        )
    };
    let error = Nmcli::new(SharedRunner(fake())).restore(&home).unwrap_err();
    assert_eq!(
        error.message(),
        "nmcli connection up Home ifname en1 failed (1): boom"
    );
    assert!(Networksetup::new(SharedRunner(fake())).restore(&home).is_ok());
}
