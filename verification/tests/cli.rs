use std::cell::RefCell;
use std::collections::BTreeMap;

use gr3sync::ble::{DiscoveredCamera, Gatt, Session, WlanCredentials};
use gr3sync::camera::CameraProps;
use gr3sync::cli::doctor::{examine, report_lines};
use gr3sync::cli::render::{event_line, render};
use gr3sync::cli::report::{
    backend_json, backend_line, camera_address, camera_host, config_json, fetch_target, get_json,
    get_line,
    info_json, list_json, list_lines, no_camera_at, raw_read_json, raw_write_json, scan_json,
    scan_line, scan_lines, switch_wlan, take_readings, wlan_json, wlan_lines,
};
use gr3sync::cli::{
    formats, hex, is_hex_readable, keeps_dirs, outcome_exit_code, parse_hex, parse_photo_key,
    pull_options, resolve_characteristic, scan_exit_code, PullArgs,
};
use gr3sync::config::Environment;
use gr3sync::emulator::GattTable;
use gr3sync::json::Json;
use gr3sync::netlink::Backend;
use gr3sync::protocol as p;
use gr3sync::sync::Failure;
use gr3sync::{Config, Error, Outcome, PhotoRef, Result};

fn object(members: Vec<(&str, Json)>) -> Json {
    Json::Object(
        members
            .into_iter()
            .map(|(key, value)| (key.to_string(), value))
            .collect(),
    )
}

fn text(text: &str) -> Json {
    Json::Text(text.to_string())
}

fn texts(items: &[&str]) -> Json {
    Json::Array(items.iter().map(|item| text(item)).collect())
}

/// The same value, for comparing and printing.
fn value(json: &Json) -> serde_json::Value {
    match json {
        Json::Null => serde_json::Value::Null,
        Json::Bool(yes) => serde_json::Value::from(*yes),
        Json::Number(Some(n)) => serde_json::Value::from(i64::try_from(*n).unwrap()),
        Json::Number(None) => serde_json::Value::Null,
        Json::Text(text) => serde_json::Value::from(text.as_str()),
        Json::Array(items) => serde_json::Value::Array(items.iter().map(value).collect()),
        Json::Object(members) => serde_json::Value::Object(
            members
                .iter()
                .map(|(key, item)| (key.clone(), value(item)))
                .collect(),
        ),
    }
}

fn parsed(text: &str) -> serde_json::Value {
    serde_json::from_str(text).unwrap()
}

fn env() -> Environment {
    Environment {
        config_home: None,
        home: Some("/home/me".into()),
    }
}

// -- arguments ------------------------------------------------------------

#[test]
fn neither_format_flag_means_both() {
    assert_eq!(formats(false, false), (true, true));
}

#[test]
fn both_format_flags_also_mean_both() {
    assert_eq!(formats(true, true), (true, true));
}

#[test]
fn one_format_flag_means_that_format() {
    assert_eq!(formats(true, false), (true, false));
    assert_eq!(formats(false, true), (false, true));
}

fn pull_args() -> PullArgs {
    PullArgs {
        dest: Some("/tmp/shots".into()),
        address: None,
        timeout: 10_000,
        jpg: false,
        raw: true,
        last: Some(5),
        dir: Some("101RICOH".into()),
        no_ble: true,
        no_power_off: false,
        flatten: true,
        dry_run: true,
        host: None,
        wifi_backend: None,
        wifi_interface: None,
        min_battery: None,
    }
}

#[test]
fn the_command_line_decides_over_the_configuration() {
    let config = Config {
        address: Some("AA".into()),
        wifi_backend: Some("nmcli".into()),
        min_battery: 40,
        ..Default::default()
    };
    let options = pull_options(&config, pull_args(), &env());
    assert_eq!(options.dest, "/tmp/shots");
    assert!(!options.use_ble && options.dry_run && !options.keep_dirs);
    assert!(!options.jpeg && options.raw);
    assert_eq!(options.last, Some(5));
    assert_eq!(options.directory.as_deref(), Some("101RICOH"));
    assert_eq!(options.address.as_deref(), Some("AA"));
    assert_eq!(options.wifi_backend.as_deref(), Some("nmcli"));
    assert_eq!(options.min_battery, 40);
    assert_eq!(options.scan_timeout, 10_000);
    assert!(options.power_off);

    let mut args = pull_args();
    args.address = Some("BB".into());
    args.host = Some("127.0.0.1:8080".into());
    args.wifi_backend = Some("manual".into());
    args.wifi_interface = Some("wlan1".into());
    args.min_battery = Some(0);
    args.no_power_off = true;
    let options = pull_options(&config, args, &env());
    assert_eq!(options.address.as_deref(), Some("BB"));
    assert_eq!(options.host, "127.0.0.1:8080");
    assert_eq!(options.wifi_backend.as_deref(), Some("manual"));
    assert_eq!(options.wifi_interface.as_deref(), Some("wlan1"));
    assert_eq!(options.min_battery, 0);
    assert!(!options.power_off);
}

#[test]
fn the_configured_layout_holds_unless_flattened() {
    let nested = Config::default();
    let flat = Config {
        keep_dirs: false,
        ..Default::default()
    };
    let layout = |config: &Config, flatten: bool| {
        let mut args = pull_args();
        args.flatten = flatten;
        pull_options(config, args, &env()).keep_dirs
    };
    assert!(layout(&nested, false) && keeps_dirs(&nested, false));
    assert!(!layout(&nested, true) && !keeps_dirs(&nested, true));
    assert!(!layout(&flat, false) && !keeps_dirs(&flat, false));
    assert!(!layout(&flat, true) && !keeps_dirs(&flat, true));
}

#[test]
fn a_file_is_fetched_to_where_a_pull_puts_it() {
    let (photo, target) = fetch_target("100RICOH/R0000001.JPG", "/d", true).unwrap();
    assert_eq!(photo, PhotoRef::new("100RICOH", "R0000001.JPG"));
    assert_eq!(target, "/d/100RICOH/R0000001.JPG");
    let (_, flat) = fetch_target("100RICOH/R0000001.JPG", "/d", false).unwrap();
    assert_eq!(flat, "/d/R0000001.JPG");
    let error = fetch_target("R0000001.JPG", "/d", true).unwrap_err();
    assert_eq!(
        error.message(),
        "\"R0000001.JPG\" must be given as DIR/FILE, e.g. 100RICOH/R0001234.JPG"
    );
}

#[test]
fn some_failed_files_exit_one() {
    let mut outcome = Outcome::default();
    assert_eq!(outcome_exit_code(&outcome), 0);
    outcome.failed.push(Failure {
        photo: "a".into(),
        error: "boom".into(),
    });
    assert_eq!(outcome_exit_code(&outcome), 1);
    assert_eq!(Error::NoWifiBackend.exit_code(), 2);
}

#[test]
fn photo_keys_must_name_a_directory() {
    assert_eq!(
        parse_photo_key("100RICOH/R0000001.JPG").unwrap(),
        PhotoRef::new("100RICOH", "R0000001.JPG")
    );
    assert!(parse_photo_key("R0000001.JPG").is_err());
    assert!(parse_photo_key("100RICOH/").is_err());
    assert!(parse_photo_key("/R0000001.JPG").is_err());
    assert_eq!(
        parse_photo_key("a/b/c.JPG").unwrap(),
        PhotoRef::new("a/b", "c.JPG")
    );
}

#[test]
fn characteristics_resolve_by_name_or_uuid() {
    assert_eq!(
        resolve_characteristic("network_type").unwrap(),
        p::CHAR_NETWORK_TYPE
    );
    assert_eq!(
        resolve_characteristic("9111cdd0-9f01-45c4-a2d4-e09e8fb0424d").unwrap(),
        p::CHAR_NETWORK_TYPE
    );
    let err = resolve_characteristic("nonsense").unwrap_err();
    assert!(err.message().contains("network_type"), "{err:?}");
}

#[test]
fn cli_hex_round_trips() {
    assert_eq!(parse_hex("01").unwrap(), vec![1]);
    assert_eq!(parse_hex("0a1b").unwrap(), vec![0x0a, 0x1b]);
    assert_eq!(parse_hex("0a:1b").unwrap(), vec![0x0a, 0x1b]);
    assert_eq!(hex(&[0x0a, 0x1b]), "0a1b");
}

#[test]
fn malformed_hex_is_rejected() {
    assert!(parse_hex("").is_err());
    assert!(parse_hex("0").is_err());
    assert!(parse_hex("zz").is_err());
    assert!(is_hex_readable("zz") && !is_hex_readable("aéb"));
}

// -- events ---------------------------------------------------------------

#[test]
fn the_done_event_renders_a_summary() {
    let line = render(&object(vec![
        ("event", text("done")),
        ("dry_run", Json::Bool(false)),
        ("bytes_written", Json::Number(Some(5 * 1024 * 1024))),
        ("downloaded", texts(&["a", "b"])),
        ("skipped", texts(&["c"])),
        (
            "failed",
            Json::Array(vec![object(vec![
                ("photo", text("d")),
                ("error", text("boom")),
            ])]),
        ),
    ]))
    .unwrap();
    assert!(line.contains("downloaded 2 files (5.0 MiB)"), "{line}");
    assert!(line.contains("1 FAILED"), "{line}");
    assert_eq!(
        line,
        "  downloaded 2 files (5.0 MiB), skipped 1, 1 FAILED"
    );
}

#[test]
fn noise_events_are_hidden_from_the_human_view() {
    assert!(render(&object(vec![("event", text("ble.disconnected"))])).is_none());
    assert!(render(&object(vec![
        ("event", text("download.done")),
        ("photo", text("a")),
        ("bytes", Json::Number(Some(1)))
    ]))
    .is_none());
    assert!(render(&Json::Null).is_none());
    let noise = object(vec![("event", text("ble.disconnected"))]);
    assert!(event_line(&noise, false).is_none());
    assert_eq!(
        event_line(&noise, true).unwrap(),
        "  · ble.disconnected"
    );
}

#[test]
fn every_shown_event_reads_as_it_should() {
    let cases = vec![
        (
            object(vec![("event", text("ble.scan"))]),
            "  scanning for the camera over Bluetooth...",
        ),
        (
            object(vec![
                ("event", text("ble.found")),
                ("name", text("GR_1")),
                ("address", text("AA")),
            ]),
            "  found GR_1 at AA",
        ),
        (
            object(vec![("event", text("ble.found"))]),
            "  found camera at ?",
        ),
        (
            object(vec![
                ("event", text("ble.awake")),
                ("was", text("Off")),
                ("woken_by_us", Json::Bool(true)),
            ]),
            "  camera was off -> woke it",
        ),
        (
            object(vec![
                ("event", text("ble.battery")),
                ("level", Json::Number(Some(88))),
                ("source", text("Battery")),
            ]),
            "  battery 88% (battery)",
        ),
        (
            object(vec![("event", text("ble.ap_up")), ("ssid", text("GR_1"))]),
            "  camera Wi-Fi up: GR_1",
        ),
        (
            object(vec![("event", text("ble.skipped"))]),
            "  skipping Bluetooth (turn the camera's Wi-Fi on by hand)",
        ),
        (
            object(vec![
                ("event", text("wifi.join")),
                ("ssid", text("GR_1")),
                ("from", Json::Null),
            ]),
            "  joining GR_1 (was on nothing)",
        ),
        (
            object(vec![
                ("event", text("http.props")),
                ("model", text("RICOH GR III")),
            ]),
            "  RICOH GR III, battery -1%",
        ),
        (
            object(vec![
                ("event", text("http.listed")),
                ("total", Json::Number(Some(6))),
            ]),
            "  6 files on the card",
        ),
        (
            object(vec![
                ("event", text("plan")),
                ("pending", Json::Number(Some(2))),
                ("skipped", Json::Number(Some(4))),
            ]),
            "  2 to download, 4 already here",
        ),
        (
            object(vec![
                ("event", text("download.start")),
                ("index", Json::Number(Some(1))),
                ("of", Json::Number(Some(2))),
                ("photo", text("100RICOH/a.JPG")),
            ]),
            "  [1/2] 100RICOH/a.JPG",
        ),
        (
            object(vec![("event", text("download.failed")), ("error", text("x"))]),
            "      FAILED: x",
        ),
        (
            object(vec![
                ("event", text("ledger.save_failed")),
                ("error", text("x")),
            ]),
            "  WARNING: could not save the ledger: x",
        ),
        (
            object(vec![("event", text("wifi.restore")), ("ssid", Json::Null)]),
            "  back to the previous network",
        ),
        (
            object(vec![
                ("event", text("wifi.restore_failed")),
                ("error", text("x")),
            ]),
            "  WARNING: could not restore the previous network: x",
        ),
        (
            object(vec![
                ("event", text("ble.power_off_failed")),
                ("error", text("x")),
            ]),
            "  note: could not power the camera off: x",
        ),
        (
            object(vec![
                ("event", text("done")),
                ("dry_run", Json::Bool(true)),
                ("downloaded", texts(&["a"])),
            ]),
            "  would download 1 files (0.0 MiB), skipped 0",
        ),
    ];
    for (event, expected) in cases {
        assert_eq!(render(&event).as_deref(), Some(expected));
    }
}

// -- reports --------------------------------------------------------------

/// A camera in memory.
struct FakeGatt {
    values: RefCell<BTreeMap<u128, Vec<u8>>>,
    unreadable: Vec<u128>,
    settled: RefCell<Vec<u64>>,
}

impl FakeGatt {
    fn camera() -> Self {
        let mut values = BTreeMap::new();
        values.insert(p::CHAR_MODEL_NUMBER, b"RICOH GR III".to_vec());
        values.insert(p::CHAR_CAMERA_POWER, vec![0]);
        values.insert(p::CHAR_OPERATION_MODE, vec![2]);
        values.insert(p::CHAR_NETWORK_TYPE, vec![0]);
        values.insert(p::CHAR_SSID, b"GR_1".to_vec());
        values.insert(p::CHAR_PASSPHRASE, b"01234567".to_vec());
        values.insert(p::CHAR_BATTERY_LEVEL, vec![88, 1]);
        values.insert(p::CHAR_CHANNEL, vec![1]);
        // Not documented.
        values.insert(7, vec![1, 2]);
        FakeGatt {
            values: RefCell::new(values),
            unreadable: vec![p::CHAR_CHANNEL],
            settled: RefCell::new(Vec::new()),
        }
    }
}

impl Gatt for FakeGatt {
    fn read(&self, uuid: u128) -> Result<Vec<u8>> {
        if self.unreadable.contains(&uuid) {
            return Err(Error::Ble("read refused".into()));
        }
        self.values
            .borrow()
            .get(&uuid)
            .cloned()
            .ok_or(Error::MissingCharacteristic(uuid))
    }

    fn write(&self, uuid: u128, data: &[u8]) -> Result<()> {
        self.values.borrow_mut().insert(uuid, data.to_vec());
        Ok(())
    }

    fn available(&self) -> Vec<u128> {
        self.values.borrow().keys().copied().collect()
    }

    fn writable(&self) -> Vec<u128> {
        vec![p::CHAR_CAMERA_POWER, p::CHAR_NETWORK_TYPE]
    }

    fn settle(&self, millis: u64) {
        self.settled.borrow_mut().push(millis);
    }
}

#[test]
fn a_doctor_report_says_what_is_there() {
    let report = examine(&FakeGatt::camera());
    let rows = report.get("documented").unwrap().as_array().unwrap();
    assert_eq!(rows.len(), 51);
    let row = |name: &str| {
        value(
            rows.iter()
                .find(|row| row.get("name").unwrap().as_str() == Some(name))
                .unwrap(),
        )
    };
    assert_eq!(
        row("camera_power"),
        parsed(
            r#"{"name":"camera_power","uuid":"b58ce84c-0666-4de9-bec8-2d27b27b3211",
                "service":"4b445988-caa0-4dd3-941d-37b4f52aca86","exposed":true,
                "writable":true,"value":{"hex":"00","text":""}}"#
        )
    );
    assert_eq!(row("channel")["value"], parsed(r#"{"error":"BLE: read refused"}"#));
    assert_eq!(row("channel")["writable"], parsed("false"));
    assert_eq!(row("serial_number")["exposed"], parsed("false"));
    assert_eq!(row("serial_number")["value"], parsed("null"));
    assert_eq!(
        value(report.get("undocumented_present").unwrap()),
        parsed(r#"["00000000-0000-0000-0000-000000000007"]"#)
    );
}

#[test]
fn a_doctor_report_is_shown_row_by_row() {
    let lines = report_lines(&examine(&FakeGatt::camera()));
    assert_eq!(lines.len(), 51 + 2);
    assert!(lines.contains(&format!("yes  {:<24}  00", "camera_power")));
    assert!(lines.contains(&format!("NO   {:<24}", "serial_number")));
    assert!(lines.contains(&format!("yes  {:<24}", "channel")));
    assert_eq!(
        lines[51],
        "\n1 characteristic(s) present that gr3sync does not know about:"
    );
    assert_eq!(lines[52], "  00000000-0000-0000-0000-000000000007");
    assert!(report_lines(&Json::Null).is_empty());
}

#[test]
fn a_report_replays_the_camera_it_came_from() {
    let camera = FakeGatt::camera();
    let mut table = GattTable::from_doctor_report(&examine(&camera)).unwrap();
    assert_eq!(
        table.read(p::CHAR_MODEL_NUMBER).unwrap(),
        b"RICOH GR III".to_vec()
    );
    assert_eq!(table.read(p::CHAR_BATTERY_LEVEL).unwrap(), vec![88, 1]);
    assert!(table.get(p::CHAR_SERIAL_NUMBER).is_none());
    assert!(table.write(p::CHAR_BATTERY_LEVEL, &[0]).is_err());
    table.write(p::CHAR_CAMERA_POWER, &[1]).unwrap();
    assert_eq!(table.power(), Some(p::CameraPower::On));
}

#[test]
fn one_unreadable_characteristic_does_not_blank_the_rest() {
    let session = Session::new(FakeGatt::camera());
    let info = value(&info_json(take_readings(&session)));
    assert_eq!(info["model"], parsed(r#""RICOH GR III""#));
    assert_eq!(info["power"], parsed(r#""Off""#));
    assert_eq!(info["wlan"], parsed(r#""Off""#));
    assert_eq!(
        info["battery"],
        parsed(r#"{"level":88,"source":"AcAdapter"}"#)
    );
    let serial = info["serial"].as_str().unwrap();
    assert!(
        serial.starts_with("<unavailable: the camera does not expose characteristic 0d2fc4d5-"),
        "{serial}"
    );
    session
        .gatt()
        .write(
            p::CHAR_STORAGE_INFORMATION,
            &[1, 1, 1, 0, 1, 1, 210, 4, 0, 0, 88, 2, 0, 0, 1],
        )
        .unwrap();
    let info = value(&info_json(take_readings(&session)));
    assert_eq!(
        info["storage"],
        parsed(
            r#"[{"kind":"SdSlot1","present":true,"locked":false,"available":true,
                 "formatted":true,"remaining_pictures":1234,"remaining_video_seconds":600,
                 "file_type":1}]"#
        )
    );
}

#[test]
fn the_access_point_is_switched_on_and_off() {
    let session = Session::new(FakeGatt::camera());
    let up = switch_wlan(&session, true).unwrap();
    assert_eq!(*session.gatt().settled.borrow(), vec![1500, 3000]);
    assert_eq!(session.power().unwrap(), p::CameraPower::On);
    assert_eq!(
        value(&wlan_json(&up)),
        parsed(r#"{"wlan":"ApMode","ssid":"GR_1","passphrase":"01234567"}"#)
    );
    assert_eq!(wlan_lines(&up), vec!["SSID: GR_1", "Pass: 01234567"]);
    let down = switch_wlan(&session, false).unwrap();
    assert!(down.is_none());
    assert_eq!(session.network_type().unwrap(), p::NetworkType::Off);
    assert_eq!(value(&wlan_json(&down)), parsed(r#"{"wlan":"Off"}"#));
    assert_eq!(wlan_lines(&down), vec!["camera Wi-Fi off"]);
    let credentials = Some(WlanCredentials {
        ssid: "a".into(),
        passphrase: "b".into(),
    });
    assert_eq!(wlan_lines(&credentials).len(), 2);
}

#[test]
fn single_characteristics_are_reported_in_hexadecimal_and_as_text() {
    assert_eq!(
        value(&raw_read_json(p::CHAR_SSID, b"GR\0")),
        parsed(
            r#"{"uuid":"90638e5a-e77d-409d-b550-78f7e1ca5ab4","hex":"475200","text":"GR","len":3}"#
        )
    );
    assert_eq!(
        value(&raw_write_json(p::CHAR_NETWORK_TYPE, &[1])),
        parsed(r#"{"uuid":"9111cdd0-9f01-45c4-a2d4-e09e8fb0424d","wrote":"01"}"#)
    );
}

#[test]
fn cameras_in_range_are_listed() {
    let found = vec![
        DiscoveredCamera {
            address: "AA".into(),
            name: Some("GR_1".into()),
            rssi: Some(-60),
        },
        DiscoveredCamera {
            address: "BB".into(),
            name: None,
            rssi: None,
        },
    ];
    assert_eq!(scan_line(&found[0]), "AA  GR_1  -60 dBm");
    assert_eq!(scan_line(&found[1]), "BB  (unnamed)");
    assert_eq!(
        scan_lines(&found),
        vec!["AA  GR_1  -60 dBm", "BB  (unnamed)"]
    );
    assert_eq!(scan_exit_code(&found, false), 0);
    assert_eq!(
        scan_lines(&Vec::new()),
        vec!["no camera found. Is the camera paired with this host and Bluetooth enabled on it?"]
    );
    assert_eq!(scan_exit_code(&[], false), 1);
    assert_eq!(scan_exit_code(&[], true), 0);
    assert_eq!(
        value(&scan_json(&found)),
        parsed(
            r#"[{"address":"AA","name":"GR_1","rssi":-60},{"address":"BB","name":null,"rssi":null}]"#
        )
    );
}

#[test]
fn a_listing_is_shown_and_reported() {
    let props = CameraProps {
        model: "RICOH GR III".into(),
        firmware: None,
        serial: None,
        battery: None,
    };
    let photos = vec![PhotoRef::new("100RICOH", "a.JPG")];
    assert_eq!(
        list_lines(&props, &photos),
        vec!["RICOH GR III, battery -1%", "100RICOH/a.JPG", "1 files"]
    );
    assert_eq!(
        value(&list_json(&props, &photos)),
        parsed(
            r#"{"model":"RICOH GR III","battery":null,
                "photos":[{"dir":"100RICOH","file":"a.JPG","key":"100RICOH/a.JPG"}]}"#
        )
    );
    let err = no_camera_at("192.168.0.1");
    assert_eq!(
        err.message(),
        "no camera at 192.168.0.1. Join the camera's Wi-Fi first, or use 'gr3sync wlan on' to raise it over Bluetooth."
    );
}

#[test]
fn a_fetched_file_is_shown_and_reported() {
    let photo = PhotoRef::new("100RICOH", "a.JPG");
    assert_eq!(
        get_line(&photo, "/dest/a.JPG", 2560),
        "100RICOH/a.JPG -> /dest/a.JPG (2 KiB)"
    );
    assert_eq!(
        value(&get_json(&photo, "/dest/a.JPG", 2560)),
        parsed(r#"{"photo":"100RICOH/a.JPG","path":"/dest/a.JPG","bytes":2560}"#)
    );
}

#[test]
fn the_settings_in_effect_are_reported() {
    let config = Config {
        dest: Some("~/x".into()),
        ..Default::default()
    };
    assert_eq!(
        value(&config_json(&config, &env(), false)),
        parsed(
            r#"{"dest":"~/x","address":null,"wifi_backend":null,"wifi_interface":null,
                "host":"192.168.0.1","min_battery":15,"power_off":true,"keep_dirs":true,
                "_path":"/home/me/.config/gr3sync/config.toml","_exists":false,
                "_resolved_dest":"/home/me/x"}"#
        )
    );
    assert_eq!(camera_host(&None, &config), "192.168.0.1");
    assert_eq!(camera_host(&Some("h".into()), &config), "h");
    assert_eq!(camera_address(&None, &config), None);
    assert_eq!(
        camera_address(&Some("AA".into()), &config).as_deref(),
        Some("AA")
    );
}

#[test]
fn backends_are_shown_and_reported() {
    assert_eq!(backend_line(Backend::Nmcli, false), "no   nmcli");
    assert_eq!(
        backend_line(Backend::Manual, true),
        "yes  manual  (asks you to switch networks)"
    );
    assert_eq!(
        value(&backend_json(Backend::Networksetup, true)),
        parsed(r#"{"name":"networksetup","available":true}"#)
    );
}

#[test]
fn hex_is_read_in_either_case_and_with_separators() {
    let bytes = vec![0x0a, 0x1b, 0xff];
    for text in ["0a1bff", "0A1BFF", "0a:1B:fF", " 0 a1b\tf:f "] {
        assert_eq!(parse_hex(text).unwrap(), bytes);
    }
    assert_eq!(hex(&bytes), "0a1bff");
}
