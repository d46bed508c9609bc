use gr3sync::emulator::gatt::{decode_hex, encode_hex};
use gr3sync::emulator::http::{parse_header, parse_request, Header};
use gr3sync::emulator::{Card, GattTable, Provenance};
use gr3sync::json::Json;
use gr3sync::protocol as p;

fn hyphenated(uuid: u128) -> String {
    uuid::Uuid::from_u128(uuid).to_string()
}

fn object(members: Vec<(&str, Json)>) -> Json {
    Json::Object(
        members
            .into_iter()
            .map(|(key, value)| (key.to_string(), value))
            .collect(),
    )
}

fn text(text: &str) -> Json {
    Json::Text(text.to_string())
}

fn row(name: &str, uuid: u128, exposed: bool, hex: Option<&str>) -> Json {
    object(vec![
        ("name", text(name)),
        ("uuid", text(&hyphenated(uuid))),
        ("exposed", Json::Bool(exposed)),
        (
            "value",
            match hex {
                Some(hex) => object(vec![("hex", text(hex)), ("text", text(""))]),
                None => Json::Null,
            },
        ),
    ])
}

fn report(rows: Vec<Json>) -> Json {
    object(vec![
        ("documented", Json::Array(rows)),
        ("undocumented_present", Json::Array(Vec::new())),
    ])
}

#[test]
fn the_specification_table_starts_from_a_camera_that_is_off_and_dark() {
    let table = GattTable::specification();
    assert_eq!(table.power(), Some(p::CameraPower::Off));
    assert!(!table.access_point_is_up());
    assert!(table.read(p::CHAR_SSID).unwrap().is_empty());
}

#[test]
fn writing_ap_mode_populates_the_credentials() {
    let mut table = GattTable::specification();
    table
        .write(
            p::CHAR_NETWORK_TYPE,
            &[p::NetworkType::ApMode.as_i8() as u8],
        )
        .unwrap();
    assert!(table.access_point_is_up());
    assert_eq!(table.read(p::CHAR_SSID).unwrap(), b"GR_EMULATED".to_vec());
    assert_eq!(
        table.read(p::CHAR_PASSPHRASE).unwrap(),
        b"emulated0".to_vec()
    );
}

#[test]
fn turning_the_access_point_off_clears_the_credentials() {
    let mut table = GattTable::specification();
    table.write(p::CHAR_NETWORK_TYPE, &[1]).unwrap();
    table.write(p::CHAR_NETWORK_TYPE, &[0]).unwrap();
    assert!(!table.access_point_is_up());
    assert!(table.read(p::CHAR_SSID).unwrap().is_empty());
}

#[test]
fn a_read_only_characteristic_refuses_writes() {
    // If the emulator accepted every write, a gr3sync bug that scribbled on
    // a read-only characteristic would go unnoticed.
    let mut table = GattTable::specification();
    assert!(table.write(p::CHAR_MODEL_NUMBER, b"NOT A GR").is_err());
    assert!(table.write(p::CHAR_BATTERY_LEVEL, &[0, 0]).is_err());
    assert_eq!(
        table.read(p::CHAR_MODEL_NUMBER).unwrap(),
        b"RICOH GR III".to_vec()
    );
}

#[test]
fn an_unexposed_characteristic_refuses_writes() {
    let mut table = GattTable::specification();
    table
        .characteristics
        .remove(&hyphenated(p::CHAR_NETWORK_TYPE));
    assert!(table.write(p::CHAR_NETWORK_TYPE, &[1]).is_err());
}

#[test]
fn the_specification_table_is_labelled_as_an_assumption() {
    // A green test against this table must never be reported as evidence
    // about the real camera.
    assert!(!GattTable::specification().provenance.is_hardware());
    assert_eq!(Provenance::default(), Provenance::Specification);
}

#[test]
fn a_doctor_report_rebuilds_a_hardware_labelled_table() {
    let report = report(vec![
        row("network_type", p::CHAR_NETWORK_TYPE, true, Some("00")),
        row("camera_power", p::CHAR_CAMERA_POWER, true, Some("01")),
        row("channel", p::CHAR_CHANNEL, false, None),
    ]);
    let table = GattTable::from_doctor_report(&report).unwrap();

    assert!(table.provenance.is_hardware());
    assert_eq!(table.power(), Some(p::CameraPower::On));
    // Not exposed by the real camera means not present here either: a test
    // must fail the same way the hardware would.
    assert!(table.get(p::CHAR_CHANNEL).is_none());
}

#[test]
fn a_report_that_does_not_say_so_makes_nothing_writable() {
    let report = report(vec![row(
        "network_type",
        p::CHAR_NETWORK_TYPE,
        true,
        Some("00"),
    )]);
    let mut table = GattTable::from_doctor_report(&report).unwrap();
    assert!(table.write(p::CHAR_NETWORK_TYPE, &[1]).is_err());
    // The service is filled in from the documentation.
    assert_eq!(
        table
            .get(p::CHAR_NETWORK_TYPE)
            .unwrap()
            .service
            .as_deref()
            .unwrap(),
        hyphenated(p::SERVICE_WLAN_CONTROL)
    );
}

#[test]
fn an_empty_doctor_report_is_rejected() {
    let empty = object(vec![("documented", Json::Array(Vec::new()))]);
    assert!(GattTable::from_doctor_report(&empty).is_err());
    assert!(GattTable::from_doctor_report(&Json::Null).is_err());
    assert_eq!(
        GattTable::from_doctor_text(b"{\"documented\": []}").unwrap_err(),
        "doctor report exposed no characteristics"
    );
    assert_eq!(
        GattTable::from_doctor_text(b"{}").unwrap_err(),
        "doctor report has no 'documented' array"
    );
    assert_eq!(
        GattTable::from_doctor_text(b"not json").unwrap_err(),
        "doctor report is not JSON"
    );
}

#[test]
fn every_characteristic_carries_its_service() {
    // Without this the Bluetooth peripheral cannot build the table, and
    // gr3sync would simply not find the characteristic.
    let table = GattTable::specification();
    for i in 0..table.characteristics.len() {
        let (uuid, state) = table.characteristics.at(i);
        assert!(state.service.is_some(), "{uuid} has no service");
    }
    assert_eq!(
        table.get(p::CHAR_NETWORK_TYPE).unwrap().service.as_deref(),
        Some(hyphenated(p::SERVICE_WLAN_CONTROL).as_str())
    );
}

#[test]
fn gatt_hex_round_trips() {
    assert_eq!(decode_hex("0a1b").unwrap(), vec![0x0a, 0x1b]);
    assert_eq!(encode_hex(&[0x0a, 0x1b]), "0a1b");
    assert_eq!(decode_hex(""), Some(Vec::new()));
    assert_eq!(decode_hex("abc"), None);
}

#[test]
fn a_value_that_is_not_hexadecimal_is_empty() {
    let report = report(vec![
        row("a", p::CHAR_SSID, true, Some("zz")),
        row("b", p::CHAR_CHANNEL, true, None),
    ]);
    let table = GattTable::from_doctor_report(&report).unwrap();
    assert_eq!(table.read(p::CHAR_SSID), Some(Vec::new()));
    assert_eq!(table.read(p::CHAR_CHANNEL), Some(Vec::new()));
    assert_eq!(table.read(p::CHAR_PASSPHRASE), None);
    // One that pairs of bytes would cut in two is recognised beforehand.
    assert!(table.get(p::CHAR_SSID).unwrap().readable());
}

#[test]
fn a_card_of_pairs_has_two_files_per_shot() {
    let card = Card::with_pairs(3);
    assert_eq!(card.count(), 6);
    assert!(card.files.get("100RICOH").unwrap().get("R0000001.JPG").is_some());
    assert!(card.files.get("100RICOH").unwrap().get("R0000001.DNG").is_some());
}

#[test]
fn requests_are_noted_and_answered() {
    let mut card = Card::with_pairs(1);
    assert_eq!(card.serve("GET", "/v1/ping").status, 200);
    assert_eq!(card.serve("POST", "/v1/device/wlan/finish").status, 200);
    assert_eq!(card.serve("GET", "/nothing").status, 404);
    assert!(card.wlan_finished && !card.device_finished);
    assert_eq!(card.serve("POST", "/v1/device/finish").status, 200);
    assert!(card.device_finished);
    assert_eq!(
        card.requests,
        vec![
            "GET /v1/ping",
            "POST /v1/device/wlan/finish",
            "GET /nothing",
            "POST /v1/device/finish"
        ]
    );
}

#[test]
fn files_are_served_whole_unless_they_are_broken() {
    let mut card = Card::new();
    card.add("100RICOH", "a.JPG", b"0123456789".to_vec());
    let response = card.serve_get("/v1/photos/100RICOH/a.JPG");
    assert_eq!(response.status, 200);
    assert_eq!(response.body, b"0123456789".to_vec());
    assert_eq!(response.announced, 10);
    assert_eq!(card.serve_get("/100RICOH/a.JPG").status, 404);
    card.broken.push("a.JPG".into());
    let response = card.serve_get("/v1/photos/100RICOH/a.JPG");
    assert!((response.body.len() as u128) < response.announced);
}

#[test]
fn a_response_is_written_with_its_length() {
    let card = Card::new();
    let text = String::from_utf8(card.serve_get("/v1/ping").to_bytes()).unwrap();
    assert_eq!(
        text,
        "HTTP/1.1 200 OK\r\nContent-Type: application/json\r\nContent-Length: 29\r\nConnection: close\r\n\r\n{\"errCode\":200,\"errMsg\":\"OK\"}"
    );
}

#[test]
fn requests_and_headers_are_read_line_by_line() {
    let (method, path) = parse_request("GET /v1/ping HTTP/1.1\r\n");
    assert_eq!((method.as_str(), path.as_str()), ("GET", "/v1/ping"));
    let (method, path) = parse_request("");
    assert_eq!((method.as_str(), path.as_str()), ("", "/"));
    assert_eq!(parse_header("\r\n"), Header::End);
    assert_eq!(
        parse_header("Content-Length: 12\r\n"),
        Header::ContentLength(12)
    );
    assert_eq!(
        parse_header("content-length: x\r\n"),
        Header::ContentLength(0)
    );
    assert_eq!(parse_header("Host: x\r\n"), Header::Other);
}

#[test]
fn a_table_is_rebuilt_from_the_text_of_a_report() {
    let text = br#"{"documented": [
        {"uuid": "9111cdd0-9f01-45c4-a2d4-e09e8fb0424d", "name": "network_type",
         "exposed": true, "writable": true, "value": {"hex": "00"}},
        {"uuid": "90638e5a-e77d-409d-b550-78f7e1ca5ab4", "exposed": false}
    ]}"#;
    let table = GattTable::from_doctor_text(text).unwrap();
    assert!(table.provenance.is_hardware());
    assert_eq!(table.read(p::CHAR_NETWORK_TYPE), Some(vec![0]));
    let state = table.get(p::CHAR_NETWORK_TYPE).unwrap();
    assert!(state.writable);
    assert_eq!(state.name.as_deref(), Some("network_type"));
    assert_eq!(
        state.service.as_deref(),
        Some("f37f568f-9071-445d-a938-5441f2e82399")
    );
    assert_eq!(table.read(p::CHAR_SSID), None);
}
