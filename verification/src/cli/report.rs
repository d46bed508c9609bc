//! What the other subcommands report, as JSON and for a person to read.

use crate::ble;
use crate::ble::{CredentialsView, DiscoveredCamera, DiscoveredView, Gatt, GattReply, Session, StartApView, Wake, WlanCredentials};
use crate::camera::{CameraProps, PhotoRef, PhotoView, PropsView};
use crate::cli;
use crate::cli::render;
use crate::config;
use crate::config::{Config, ConfigView, Environment, EnvironmentView};
use crate::error;
use crate::error::{Error, ErrorView, Result, ResultView};
use crate::hexadecimal;
use crate::ids;
use crate::ids::Uuid;
use crate::json;
use crate::json::{Json, JsonView};
use crate::netlink::Backend;
use crate::paths;
use crate::protocol as p;
use crate::sync;
use crate::text;
use vstd::prelude::*;

verus! {

// Scanning.
/// What `scan` says where there is nothing to list.
pub const NO_CAMERA: &'static str = "no camera found. Is the camera paired with this host and Bluetooth enabled on it?";

/// A camera that a scan found, as JSON.
pub open spec fn camera_view(camera: DiscoveredView) -> JsonView {
    JsonView::Object(
        seq![
            ("address"@, JsonView::Text(camera.address)),
            ("name"@, json::optional_text_view(camera.name)),
            (
                "rssi"@,
                match camera.rssi {
                    Some(rssi) => json::number_view(rssi as int),
                    None => JsonView::Null,
                },
            ),
        ],
    )
}

fn camera_json(camera: &DiscoveredCamera) -> (value: Json)
    ensures
        value@ == camera_view(camera@),
{
    let rssi = match camera.rssi {
        Some(rssi) => json::of_number(rssi as i128),
        None => Json::Null,
    };
    let members: Vec<(String, Json)> = vec![
        json::named("address", json::of_text(camera.address.as_str())),
        json::named("name", json::of_optional_text(&camera.name)),
        json::named("rssi", rssi),
    ];
    assert(members.deep_view() =~= camera_view(camera@)->Object_0);
    json::of_members(members)
}

/// What a scan found, as JSON.
pub fn scan_json(found: &Vec<DiscoveredCamera>) -> (value: Json)
    ensures
        value@ == JsonView::Array(
            found.deep_view().map_values(|camera: DiscoveredView| camera_view(camera)),
        ),
{
    let mut rows: Vec<Json> = Vec::new();
    let mut i: usize = 0;
    while i < found.len()
        invariant
            i <= found@.len(),
            rows@.len() == i,
            forall|j: int| 0 <= j < i ==> (#[trigger] rows@[j])@ == camera_view(found@[j]@),
        decreases found@.len() - i,
    {
        rows.push(camera_json(&found[i]));
        i += 1;
    }
    assert(rows.deep_view() =~= found.deep_view().map_values(
        |camera: DiscoveredView| camera_view(camera),
    ));
    json::of_items(rows)
}

/// A camera's line in what `scan` lists.
pub open spec fn camera_line(camera: DiscoveredView) -> Seq<char> {
    let name = match camera.name {
        Some(name) => name,
        None => "(unnamed)"@,
    };
    let line = camera.address + "  "@ + name;
    match camera.rssi {
        Some(rssi) => line + "  "@ + text::signed_decimal(rssi as int) + " dBm"@,
        None => line,
    }
}

/// Show a camera that a scan found.
pub fn scan_line(camera: &DiscoveredCamera) -> (line: String)
    ensures
        line@ == camera_line(camera@),
{
    let mut line = camera.address.clone();
    line.append("  ");
    match &camera.name {
        Some(name) => line.append(name.as_str()),
        None => line.append("(unnamed)"),
    }
    if let Some(rssi) = camera.rssi {
        line.append("  ");
        line.append(text::signed_text(rssi as i64).as_str());
        line.append(" dBm");
    }
    line
}

/// What `scan` lists.
pub open spec fn scan_text(found: Seq<DiscoveredView>) -> Seq<Seq<char>> {
    if found.len() == 0 {
        seq![NO_CAMERA@]
    } else {
        found.map_values(|camera: DiscoveredView| camera_line(camera))
    }
}

/// Show what a scan found.
pub fn scan_lines(found: &Vec<DiscoveredCamera>) -> (lines: Vec<String>)
    ensures
        lines.deep_view() == scan_text(found.deep_view()),
{
    let mut lines: Vec<String> = Vec::new();
    if found.len() == 0 {
        lines.push(NO_CAMERA.to_owned());
        assert(lines.deep_view() =~= scan_text(found.deep_view()));
        return lines;
    }
    let mut i: usize = 0;
    while i < found.len()
        invariant
            i <= found@.len(),
            lines@.len() == i,
            forall|j: int| 0 <= j < i ==> (#[trigger] lines@[j])@ == camera_line(found@[j]@),
        decreases found@.len() - i,
    {
        lines.push(scan_line(&found[i]));
        i += 1;
    }
    assert(lines.deep_view() =~= scan_text(found.deep_view()));
    lines
}

// The camera's state.
/// What `info` reads. Each read is independent: one unsupported characteristic
/// must not blank out the rest of the report.
pub struct Readings {
    pub model: Result<String>,
    pub firmware: Result<String>,
    pub serial: Result<String>,
    pub power: Result<p::CameraPower>,
    pub wlan: Result<p::NetworkType>,
    pub ble_enable_condition: Result<p::BleEnableCondition>,
    pub battery: Result<p::BatteryLevel>,
    pub storage: Result<Vec<p::StorageSlot>>,
}

/// What `info` reads, mathematically.
#[verifier::ext_equal]
pub struct ReadingsView {
    pub model: ResultView<Seq<char>>,
    pub firmware: ResultView<Seq<char>>,
    pub serial: ResultView<Seq<char>>,
    pub power: ResultView<p::CameraPower>,
    pub wlan: ResultView<p::NetworkType>,
    pub ble_enable_condition: ResultView<p::BleEnableCondition>,
    pub battery: ResultView<p::BatteryLevel>,
    pub storage: ResultView<Seq<p::StorageSlot>>,
}

impl View for Readings {
    type V = ReadingsView;

    open spec fn view(&self) -> ReadingsView {
        ReadingsView {
            model: error::seen(self.model),
            firmware: error::seen(self.firmware),
            serial: error::seen(self.serial),
            power: error::seen(self.power),
            wlan: error::seen(self.wlan),
            ble_enable_condition: error::seen(self.ble_enable_condition),
            battery: error::seen(self.battery),
            storage: error::seen(self.storage),
        }
    }
}

/// What a camera's answers come to.
pub open spec fn readings_of(
    model: ResultView<Seq<u8>>,
    firmware: ResultView<Seq<u8>>,
    serial: ResultView<Seq<u8>>,
    power: ResultView<Seq<u8>>,
    wlan: ResultView<Seq<u8>>,
    condition: ResultView<Seq<u8>>,
    battery: ResultView<Seq<u8>>,
    storage: ResultView<Seq<u8>>,
) -> ReadingsView {
    ReadingsView {
        model: ble::text_in(model),
        firmware: ble::text_in(firmware),
        serial: ble::text_in(serial),
        power: ble::power_in(power),
        wlan: ble::network_in(wlan),
        ble_enable_condition: ble::condition_in(condition),
        battery: ble::battery_in(battery),
        storage: ble::storage_in(storage),
    }
}

/// Whether a camera can answer a read in this way.
pub open spec fn reads<G: Gatt>(gatt: &G, uuid: Uuid, reply: Result<Vec<u8>>) -> bool {
    call_ensures(G::read, (gatt, uuid), reply)
}

/// Read what `info` shows.
pub fn take_readings<G: Gatt>(session: &Session<G>) -> (readings: Readings)
    ensures
        exists|
            model: Result<Vec<u8>>,
            firmware: Result<Vec<u8>>,
            serial: Result<Vec<u8>>,
            power: Result<Vec<u8>>,
            wlan: Result<Vec<u8>>,
            condition: Result<Vec<u8>>,
            battery: Result<Vec<u8>>,
            storage: Result<Vec<u8>>,
        |
            {
                &&& #[trigger] reads(session.transport(), p::CHAR_MODEL_NUMBER, model)
                &&& #[trigger] reads(session.transport(), p::CHAR_FIRMWARE_REVISION, firmware)
                &&& #[trigger] reads(session.transport(), p::CHAR_SERIAL_NUMBER, serial)
                &&& #[trigger] reads(session.transport(), p::CHAR_CAMERA_POWER, power)
                &&& #[trigger] reads(session.transport(), p::CHAR_NETWORK_TYPE, wlan)
                &&& #[trigger] reads(session.transport(), p::CHAR_BLE_ENABLE_CONDITION, condition)
                &&& #[trigger] reads(session.transport(), p::CHAR_BATTERY_LEVEL, battery)
                &&& #[trigger] reads(session.transport(), p::CHAR_STORAGE_INFORMATION, storage)
                &&& readings@ == readings_of(
                    ble::raw_seen(model),
                    ble::raw_seen(firmware),
                    ble::raw_seen(serial),
                    ble::raw_seen(power),
                    ble::raw_seen(wlan),
                    ble::raw_seen(condition),
                    ble::raw_seen(battery),
                    ble::raw_seen(storage),
                )
            },
{
    let model = session.gatt().read(p::CHAR_MODEL_NUMBER);
    let firmware = session.gatt().read(p::CHAR_FIRMWARE_REVISION);
    let serial = session.gatt().read(p::CHAR_SERIAL_NUMBER);
    let power = session.gatt().read(p::CHAR_CAMERA_POWER);
    let wlan = session.gatt().read(p::CHAR_NETWORK_TYPE);
    let condition = session.gatt().read(p::CHAR_BLE_ENABLE_CONDITION);
    let battery = session.gatt().read(p::CHAR_BATTERY_LEVEL);
    let storage = session.gatt().read(p::CHAR_STORAGE_INFORMATION);
    proof {
        let gatt = session.transport();
        assert(reads(gatt, p::CHAR_MODEL_NUMBER, model));
        assert(reads(gatt, p::CHAR_FIRMWARE_REVISION, firmware));
        assert(reads(gatt, p::CHAR_SERIAL_NUMBER, serial));
        assert(reads(gatt, p::CHAR_CAMERA_POWER, power));
        assert(reads(gatt, p::CHAR_NETWORK_TYPE, wlan));
        assert(reads(gatt, p::CHAR_BLE_ENABLE_CONDITION, condition));
        assert(reads(gatt, p::CHAR_BATTERY_LEVEL, battery));
        assert(reads(gatt, p::CHAR_STORAGE_INFORMATION, storage));
    }
    Readings {
        model: ble::text_from(model),
        firmware: ble::text_from(firmware),
        serial: ble::text_from(serial),
        power: ble::power_from(power),
        wlan: ble::network_from(wlan),
        ble_enable_condition: ble::condition_from(condition),
        battery: ble::battery_from(battery),
        storage: ble::storage_from(storage),
    }
}

/// What stands in the report for what could not be read.
pub open spec fn unavailable_view(error: ErrorView) -> JsonView {
    JsonView::Text("<unavailable: "@ + error::error_message(error) + ">"@)
}

fn unavailable(error: Error) -> (value: Json)
    ensures
        value@ == unavailable_view(error@),
{
    let mut text = "<unavailable: ".to_owned();
    text.append(error.message().as_str());
    text.append(">");
    json::of_text(text.as_str())
}

/// A text that was read, as JSON.
pub open spec fn text_view(text: ResultView<Seq<char>>) -> JsonView {
    match text {
        Ok(text) => JsonView::Text(text),
        Err(error) => unavailable_view(error),
    }
}

fn text_json(text: Result<String>) -> (value: Json)
    ensures
        value@ == text_view(error::seen(text)),
{
    match text {
        Ok(text) => json::of_text(text.as_str()),
        Err(error) => unavailable(error),
    }
}

/// The battery as it was read, as JSON.
pub open spec fn battery_view(battery: ResultView<p::BatteryLevel>) -> JsonView {
    match battery {
        Ok(battery) => JsonView::Object(
            seq![
                ("level"@, json::number_view(battery.level as int)),
                ("source"@, JsonView::Text(battery.source.label())),
            ],
        ),
        Err(error) => unavailable_view(error),
    }
}

fn battery_json(battery: Result<p::BatteryLevel>) -> (value: Json)
    ensures
        value@ == battery_view(error::seen(battery)),
{
    match battery {
        Ok(battery) => {
            let members: Vec<(String, Json)> = vec![
                json::named("level", json::of_number(battery.level as i128)),
                json::named("source", json::of_text(battery.source.name())),
            ];
            assert(members.deep_view() =~= battery_view(Ok(battery))->Object_0);
            json::of_members(members)
        },
        Err(error) => unavailable(error),
    }
}

/// A storage slot, as JSON.
pub open spec fn slot_view(slot: p::StorageSlot) -> JsonView {
    JsonView::Object(
        seq![
            ("kind"@, JsonView::Text(slot.kind.label())),
            ("present"@, JsonView::Bool(slot.present)),
            ("locked"@, JsonView::Bool(slot.locked)),
            ("available"@, JsonView::Bool(slot.available)),
            ("formatted"@, JsonView::Bool(slot.formatted)),
            ("remaining_pictures"@, json::number_view(slot.remaining_pictures as int)),
            ("remaining_video_seconds"@, json::number_view(slot.remaining_video_seconds as int)),
            ("file_type"@, json::number_view(slot.file_type as int)),
        ],
    )
}

fn slot_json(slot: &p::StorageSlot) -> (value: Json)
    ensures
        value@ == slot_view(*slot),
{
    let members: Vec<(String, Json)> = vec![
        json::named("kind", json::of_text(slot.kind.name())),
        json::named("present", Json::Bool(slot.present)),
        json::named("locked", Json::Bool(slot.locked)),
        json::named("available", Json::Bool(slot.available)),
        json::named("formatted", Json::Bool(slot.formatted)),
        json::named("remaining_pictures", json::of_number(slot.remaining_pictures as i128)),
        json::named("remaining_video_seconds", json::of_number(slot.remaining_video_seconds as i128)),
        json::named("file_type", json::of_number(slot.file_type as i128)),
    ];
    assert(members.deep_view() =~= slot_view(*slot)->Object_0);
    json::of_members(members)
}

/// The storage slots as they were read, as JSON.
pub open spec fn storage_view(storage: ResultView<Seq<p::StorageSlot>>) -> JsonView {
    match storage {
        Ok(slots) => JsonView::Array(slots.map_values(|slot: p::StorageSlot| slot_view(slot))),
        Err(error) => unavailable_view(error),
    }
}

fn storage_json(storage: Result<Vec<p::StorageSlot>>) -> (value: Json)
    ensures
        value@ == storage_view(error::seen(storage)),
{
    match storage {
        Ok(slots) => {
            let mut rows: Vec<Json> = Vec::new();
            let mut i: usize = 0;
            while i < slots.len()
                invariant
                    i <= slots@.len(),
                    rows@.len() == i,
                    forall|j: int| 0 <= j < i ==> (#[trigger] rows@[j])@ == slot_view(slots@[j]),
                decreases slots@.len() - i,
            {
                rows.push(slot_json(&slots[i]));
                i += 1;
            }
            assert(rows.deep_view() =~= slots.deep_view().map_values(
                |slot: p::StorageSlot| slot_view(slot),
            ));
            json::of_items(rows)
        },
        Err(error) => unavailable(error),
    }
}

/// What `info` reports.
pub open spec fn info_view(readings: ReadingsView) -> JsonView {
    JsonView::Object(
        seq![
            ("model"@, text_view(readings.model)),
            ("firmware"@, text_view(readings.firmware)),
            ("serial"@, text_view(readings.serial)),
            (
                "power"@,
                match readings.power {
                    Ok(power) => JsonView::Text(power.label()),
                    Err(error) => unavailable_view(error),
                },
            ),
            (
                "wlan"@,
                match readings.wlan {
                    Ok(wlan) => JsonView::Text(wlan.label()),
                    Err(error) => unavailable_view(error),
                },
            ),
            (
                "ble_enable_condition"@,
                match readings.ble_enable_condition {
                    Ok(condition) => JsonView::Text(condition.label()),
                    Err(error) => unavailable_view(error),
                },
            ),
            ("battery"@, battery_view(readings.battery)),
            ("storage"@, storage_view(readings.storage)),
        ],
    )
}

/// Report on the camera's state.
pub fn info_json(readings: Readings) -> (value: Json)
    ensures
        value@ == info_view(readings@),
{
    let ghost views = readings@;
    let power = match readings.power {
        Ok(power) => json::of_text(power.name()),
        Err(error) => unavailable(error),
    };
    let wlan = match readings.wlan {
        Ok(wlan) => json::of_text(wlan.name()),
        Err(error) => unavailable(error),
    };
    let condition = match readings.ble_enable_condition {
        Ok(condition) => json::of_text(condition.name()),
        Err(error) => unavailable(error),
    };
    let members: Vec<(String, Json)> = vec![
        json::named("model", text_json(readings.model)),
        json::named("firmware", text_json(readings.firmware)),
        json::named("serial", text_json(readings.serial)),
        json::named("power", power),
        json::named("wlan", wlan),
        json::named("ble_enable_condition", condition),
        json::named("battery", battery_json(readings.battery)),
        json::named("storage", storage_json(readings.storage)),
    ];
    assert(members.deep_view() =~= info_view(views)->Object_0);
    json::of_members(members)
}

// The access point.
/// How long `wlan on` lets the camera settle after waking it, in milliseconds.
pub const WAKE_SETTLE: u64 = 1500;

/// How long `wlan on` lets the access point settle, in milliseconds.
pub const AP_SETTLE: u64 = 3000;

/// Whether `wlan on` can come to this: the camera is woken, and where that
/// worked its access point is raised.
pub open spec fn switched_on<G: Gatt>(gatt: &G, result: ResultView<Option<CredentialsView>>) -> bool {
    exists|woken: Seq<GattReply>|
        match #[trigger] ble::wake_result(gatt, 1500, Wake::Mode, woken) {
            Some(Ok(_)) => raised(gatt, result),
            Some(Err(error)) => result == Err::<Option<CredentialsView>, _>(error),
            None => false,
        }
}

/// Whether raising the access point can come to this.
pub open spec fn raised<G: Gatt>(gatt: &G, result: ResultView<Option<CredentialsView>>) -> bool {
    exists|replies: Seq<GattReply>|
        match #[trigger] ble::start_ap_result(gatt, 3000, StartApView::Type, replies) {
            Some(Ok(credentials)) => result == Ok::<_, ErrorView>(Some(credentials)),
            Some(Err(error)) => result == Err::<Option<CredentialsView>, _>(error),
            None => false,
        }
}

/// Whether `wlan off` can come to this.
pub open spec fn switched_off<G: Gatt>(gatt: &G, result: ResultView<Option<CredentialsView>>) -> bool {
    exists|data: &[u8], written: Result<()>| #[trigger]
        call_ensures(G::write, (gatt, p::CHAR_NETWORK_TYPE, data), written) && data@ == seq![0u8]
            && match written {
            Ok(_) => result == Ok::<_, ErrorView>(None::<CredentialsView>),
            Err(error) => result == Err::<Option<CredentialsView>, _>(error@),
        }
}

fn raise<G: Gatt>(session: &Session<G>) -> (result: Result<Option<WlanCredentials>>)
    ensures
        raised(session.transport(), error::seen(result)),
{
    match session.start_ap(AP_SETTLE) {
        Ok(credentials) => Ok(Some(credentials)),
        Err(error) => Err(error),
    }
}

/// Switch the camera's access point.
pub fn switch_wlan<G: Gatt>(session: &Session<G>, on: bool) -> (result: Result<
    Option<WlanCredentials>,
>)
    ensures
        on ==> switched_on(session.transport(), error::seen(result)),
        !on ==> switched_off(session.transport(), error::seen(result)),
{
    if on {
        match session.wake(WAKE_SETTLE) {
            Ok(_) => raise(session),
            Err(error) => Err(error),
        }
    } else {
        match session.stop_ap() {
            Ok(_) => Ok(None),
            Err(error) => Err(error),
        }
    }
}

/// What `wlan` reports: the credentials of the access point, where it is up.
pub open spec fn wlan_view(credentials: Option<CredentialsView>) -> JsonView {
    match credentials {
        Some(credentials) => JsonView::Object(
            seq![
                ("wlan"@, JsonView::Text("ApMode"@)),
                ("ssid"@, JsonView::Text(credentials.ssid)),
                ("passphrase"@, JsonView::Text(credentials.passphrase)),
            ],
        ),
        None => JsonView::Object(seq![("wlan"@, JsonView::Text("Off"@))]),
    }
}

/// Report on the access point.
pub fn wlan_json(credentials: &Option<WlanCredentials>) -> (value: Json)
    ensures
        value@ == wlan_view(credentials.deep_view()),
{
    match credentials {
        Some(credentials) => {
            let members: Vec<(String, Json)> = vec![
                json::named("wlan", json::of_text("ApMode")),
                json::named("ssid", json::of_text(credentials.ssid.as_str())),
                json::named("passphrase", json::of_text(credentials.passphrase.as_str())),
            ];
            assert(members.deep_view() =~= wlan_view(Some(credentials@))->Object_0);
            json::of_members(members)
        },
        None => {
            let members: Vec<(String, Json)> = vec![json::named("wlan", json::of_text("Off"))];
            assert(members.deep_view() =~= wlan_view(None)->Object_0);
            json::of_members(members)
        },
    }
}

/// What `wlan` shows.
pub open spec fn wlan_text(credentials: Option<CredentialsView>) -> Seq<Seq<char>> {
    match credentials {
        Some(credentials) => seq!["SSID: "@ + credentials.ssid, "Pass: "@ + credentials.passphrase],
        None => seq!["camera Wi-Fi off"@],
    }
}

/// Show the access point's state.
pub fn wlan_lines(credentials: &Option<WlanCredentials>) -> (lines: Vec<String>)
    ensures
        lines.deep_view() == wlan_text(credentials.deep_view()),
{
    match credentials {
        Some(credentials) => {
            let mut ssid = "SSID: ".to_owned();
            ssid.append(credentials.ssid.as_str());
            let mut passphrase = "Pass: ".to_owned();
            passphrase.append(credentials.passphrase.as_str());
            let lines: Vec<String> = vec![ssid, passphrase];
            assert(lines.deep_view() =~= wlan_text(Some(credentials@)));
            lines
        },
        None => {
            let lines: Vec<String> = vec!["camera Wi-Fi off".to_owned()];
            assert(lines.deep_view() =~= wlan_text(None));
            lines
        },
    }
}

// Single characteristics.
/// What `raw read` reports.
pub open spec fn raw_read_view(uuid: Uuid, raw: Seq<u8>) -> JsonView {
    JsonView::Object(
        seq![
            ("uuid"@, JsonView::Text(ids::uuid_chars(uuid))),
            ("hex"@, JsonView::Text(hexadecimal::hex_of(raw))),
            ("text"@, JsonView::Text(p::decoded_text(raw))),
            ("len"@, json::number_view(raw.len() as int)),
        ],
    )
}

/// Report what a characteristic holds.
pub fn raw_read_json(uuid: Uuid, raw: &[u8]) -> (value: Json)
    ensures
        value@ == raw_read_view(uuid, raw@),
{
    assert(raw.len() == raw@.len());
    let members: Vec<(String, Json)> = vec![
        json::named("uuid", json::of_text(ids::uuid_text(uuid).as_str())),
        json::named("hex", json::of_text(hexadecimal::hex_text(raw).as_str())),
        json::named("text", json::of_text(p::decode_utf8(raw).as_str())),
        json::named("len", json::of_number(raw.len() as i128)),
    ];
    assert(members.deep_view() =~= raw_read_view(uuid, raw@)->Object_0);
    json::of_members(members)
}

/// What `raw write` reports.
pub open spec fn raw_write_view(uuid: Uuid, data: Seq<u8>) -> JsonView {
    JsonView::Object(
        seq![
            ("uuid"@, JsonView::Text(ids::uuid_chars(uuid))),
            ("wrote"@, JsonView::Text(hexadecimal::hex_of(data))),
        ],
    )
}

/// Report what was written to a characteristic.
pub fn raw_write_json(uuid: Uuid, data: &[u8]) -> (value: Json)
    ensures
        value@ == raw_write_view(uuid, data@),
{
    let members: Vec<(String, Json)> = vec![
        json::named("uuid", json::of_text(ids::uuid_text(uuid).as_str())),
        json::named("wrote", json::of_text(hexadecimal::hex_text(data).as_str())),
    ];
    assert(members.deep_view() =~= raw_write_view(uuid, data@)->Object_0);
    json::of_members(members)
}

// The card.
/// The host that the command line names, or else the configured one.
pub fn camera_host(host: &Option<String>, config: &Config) -> (chosen: String)
    ensures
        chosen@ == (match host.deep_view() {
            Some(host) => host,
            None => config@.host,
        }),
{
    match host {
        Some(host) => host.clone(),
        None => config.host.clone(),
    }
}

/// The address that the command line names, or else the configured one.
pub fn camera_address(address: &Option<String>, config: &Config) -> (chosen: Option<String>)
    ensures
        chosen.deep_view() == (match address.deep_view() {
            Some(address) => Some(address),
            None => config@.address,
        }),
{
    match address {
        Some(address) => Some(address.clone()),
        None => match &config.address {
            Some(address) => Some(address.clone()),
            None => None,
        },
    }
}

/// What `list` says where no camera answers.
pub fn no_camera_at(host: &str) -> (error: Error)
    ensures
        error@ == ErrorView::Http(
            "no camera at "@ + host@
                + ". Join the camera's Wi-Fi first, or use 'gr3sync wlan on' to raise it over Bluetooth."@,
        ),
{
    let mut detail = "no camera at ".to_owned();
    detail.append(host);
    detail.append(
        ". Join the camera's Wi-Fi first, or use 'gr3sync wlan on' to raise it over Bluetooth.",
    );
    Error::Http(detail)
}

/// A photo in what `list` reports.
pub open spec fn photo_view(photo: PhotoView) -> JsonView {
    JsonView::Object(
        seq![
            ("dir"@, JsonView::Text(photo.directory)),
            ("file"@, JsonView::Text(photo.filename)),
            ("key"@, JsonView::Text(photo.key())),
        ],
    )
}

fn photo_json(photo: &PhotoRef) -> (value: Json)
    ensures
        value@ == photo_view(photo@),
{
    let members: Vec<(String, Json)> = vec![
        json::named("dir", json::of_text(photo.directory.as_str())),
        json::named("file", json::of_text(photo.filename.as_str())),
        json::named("key", json::of_text(photo.key().as_str())),
    ];
    assert(members.deep_view() =~= photo_view(photo@)->Object_0);
    json::of_members(members)
}

/// What `list` reports.
pub open spec fn list_view(props: PropsView, photos: Seq<PhotoView>) -> JsonView {
    JsonView::Object(
        seq![
            ("model"@, JsonView::Text(props.model)),
            ("battery"@, json::optional_number_view(props.battery)),
            (
                "photos"@,
                JsonView::Array(photos.map_values(|photo: PhotoView| photo_view(photo))),
            ),
        ],
    )
}

/// Report what is on the card.
pub fn list_json(props: &CameraProps, photos: &Vec<PhotoRef>) -> (value: Json)
    ensures
        value@ == list_view(props@, photos.deep_view()),
{
    let mut rows: Vec<Json> = Vec::new();
    let mut i: usize = 0;
    while i < photos.len()
        invariant
            i <= photos@.len(),
            rows@.len() == i,
            forall|j: int| 0 <= j < i ==> (#[trigger] rows@[j])@ == photo_view(photos@[j]@),
        decreases photos@.len() - i,
    {
        rows.push(photo_json(&photos[i]));
        i += 1;
    }
    assert(rows.deep_view() =~= photos.deep_view().map_values(
        |photo: PhotoView| photo_view(photo),
    ));
    let members: Vec<(String, Json)> = vec![
        json::named("model", json::of_text(props.model.as_str())),
        json::named("battery", json::of_optional_number(props.battery)),
        json::named("photos", json::of_items(rows)),
    ];
    assert(members.deep_view() =~= list_view(props@, photos.deep_view())->Object_0);
    json::of_members(members)
}

/// What `list` shows.
pub open spec fn list_text(props: PropsView, photos: Seq<PhotoView>) -> Seq<Seq<char>> {
    let battery = match props.battery {
        Some(battery) => battery,
        None => (-1) as i64,
    };
    seq![props.model + ", battery "@ + text::signed_decimal(battery as int) + "%"@]
        + photos.map_values(|photo: PhotoView| photo.key()) + seq![
        text::decimal(photos.len()) + " files"@,
    ]
}

/// Show what is on the card.
pub fn list_lines(props: &CameraProps, photos: &Vec<PhotoRef>) -> (lines: Vec<String>)
    ensures
        lines.deep_view() == list_text(props@, photos.deep_view()),
{
    let battery: i64 = match props.battery {
        Some(battery) => battery,
        None => -1,
    };
    let mut heading = props.model.clone();
    heading.append(", battery ");
    heading.append(text::signed_text(battery).as_str());
    heading.append("%");
    let mut lines: Vec<String> = vec![heading];
    let mut i: usize = 0;
    while i < photos.len()
        invariant
            i <= photos@.len(),
            lines@.len() == 1 + i,
            lines@[0] == heading,
            forall|j: int| 1 <= j <= i ==> (#[trigger] lines@[j])@ == photos@[j - 1]@.key(),
        decreases photos@.len() - i,
    {
        lines.push(photos[i].key());
        i += 1;
    }
    let mut total = text::decimal_text(photos.len() as u64);
    total.append(" files");
    lines.push(total);
    assert(lines.deep_view() =~= list_text(props@, photos.deep_view()));
    lines
}

/// Which photo a key names, and where `get` puts it.
pub open spec fn fetched(key: Seq<char>, dest: Seq<char>, keep_dirs: bool) -> ResultView<
    (PhotoView, Seq<char>),
> {
    match cli::photo_named(key) {
        Ok(photo) => Ok((photo, sync::local(dest, photo, keep_dirs))),
        Err(error) => Err(error),
    }
}

/// Make out which photo to fetch, and where to.
pub fn fetch_target(key: &str, dest: &str, keep_dirs: bool) -> (target: Result<(PhotoRef, String)>)
    ensures
        error::seen(target) == fetched(key@, dest@, keep_dirs),
{
    match cli::parse_photo_key(key) {
        Ok(photo) => {
            let target = sync::local_path(dest, &photo, keep_dirs);
            Ok((photo, target))
        },
        Err(error) => Err(error),
    }
}

/// What `get` reports of a file.
pub open spec fn fetched_view(photo: PhotoView, target: Seq<char>, bytes: u64) -> JsonView {
    JsonView::Object(
        seq![
            ("photo"@, JsonView::Text(photo.key())),
            ("path"@, JsonView::Text(target)),
            ("bytes"@, json::number_view(bytes as int)),
        ],
    )
}

/// Report a file that was fetched.
pub fn get_json(photo: &PhotoRef, target: &str, bytes: u64) -> (value: Json)
    ensures
        value@ == fetched_view(photo@, target@, bytes),
{
    let members: Vec<(String, Json)> = vec![
        json::named("photo", json::of_text(photo.key().as_str())),
        json::named("path", json::of_text(target)),
        json::named("bytes", json::of_number(bytes as i128)),
    ];
    assert(members.deep_view() =~= fetched_view(photo@, target@, bytes)->Object_0);
    json::of_members(members)
}

/// Show a file that was fetched.
pub fn get_line(photo: &PhotoRef, target: &str, bytes: u64) -> (line: String)
    ensures
        line@ == photo@.key() + " -> "@ + target@ + " ("@ + render::kib_text(bytes as nat) + " KiB)"@,
{
    let mut line = photo.key();
    line.append(" -> ");
    line.append(target);
    line.append(" (");
    line.append(render::kib(bytes).as_str());
    line.append(" KiB)");
    line
}

// The configuration and the host.
/// What `config` reports.
pub open spec fn config_view(config: ConfigView, env: EnvironmentView, exists: bool) -> JsonView {
    JsonView::Object(
        seq![
            ("dest"@, json::optional_text_view(config.dest)),
            ("address"@, json::optional_text_view(config.address)),
            ("wifi_backend"@, json::optional_text_view(config.wifi_backend)),
            ("wifi_interface"@, json::optional_text_view(config.wifi_interface)),
            ("host"@, JsonView::Text(config.host)),
            ("min_battery"@, json::number_view(config.min_battery as int)),
            ("power_off"@, JsonView::Bool(config.power_off)),
            ("keep_dirs"@, JsonView::Bool(config.keep_dirs)),
            ("_path"@, JsonView::Text(paths::joined(config::config_dir(env), "config.toml"@))),
            ("_exists"@, JsonView::Bool(exists)),
            ("_resolved_dest"@, JsonView::Text(config::destination(config, None, env))),
        ],
    )
}

/// Report the settings in effect, where they come from and where photos go.
pub fn config_json(config: &Config, env: &Environment, exists: bool) -> (value: Json)
    ensures
        value@ == config_view(config@, env@, exists),
{
    let members: Vec<(String, Json)> = vec![
        json::named("dest", json::of_optional_text(&config.dest)),
        json::named("address", json::of_optional_text(&config.address)),
        json::named("wifi_backend", json::of_optional_text(&config.wifi_backend)),
        json::named("wifi_interface", json::of_optional_text(&config.wifi_interface)),
        json::named("host", json::of_text(config.host.as_str())),
        json::named("min_battery", json::of_number(config.min_battery as i128)),
        json::named("power_off", Json::Bool(config.power_off)),
        json::named("keep_dirs", Json::Bool(config.keep_dirs)),
        json::named("_path", json::of_text(Config::path(env).as_str())),
        json::named("_exists", Json::Bool(exists)),
        json::named("_resolved_dest", json::of_text(config.resolved_dest(None, env).as_str())),
    ];
    assert(members.deep_view() =~= config_view(config@, env@, exists)->Object_0);
    json::of_members(members)
}

/// A backend in what `backends` reports.
pub open spec fn backend_view(backend: Backend, available: bool) -> JsonView {
    JsonView::Object(
        seq![
            ("name"@, JsonView::Text(backend.label())),
            ("available"@, JsonView::Bool(available)),
        ],
    )
}

/// Report whether a backend works here.
pub fn backend_json(backend: Backend, available: bool) -> (value: Json)
    ensures
        value@ == backend_view(backend, available),
{
    let members: Vec<(String, Json)> = vec![
        json::named("name", json::of_text(backend.name())),
        json::named("available", Json::Bool(available)),
    ];
    assert(members.deep_view() =~= backend_view(backend, available)->Object_0);
    json::of_members(members)
}

/// A backend in what `backends` shows.
pub open spec fn backend_text(backend: Backend, available: bool) -> Seq<char> {
    let mark = if available {
        "yes"@
    } else {
        "no "@
    };
    let line = mark + "  "@ + backend.label();
    if backend == Backend::Manual {
        line + "  (asks you to switch networks)"@
    } else {
        line
    }
}

/// Show whether a backend works here.
pub fn backend_line(backend: Backend, available: bool) -> (line: String)
    ensures
        line@ == backend_text(backend, available),
{
    let mut line = if available {
        "yes".to_owned()
    } else {
        "no ".to_owned()
    };
    line.append("  ");
    line.append(backend.name());
    if backend == Backend::Manual {
        line.append("  (asks you to switch networks)");
    }
    line
}

/// What `scan` reports of a camera is what it found: its address, its name and its
/// strength, where it has them.
pub proof fn lemma_what_scan_reports(camera: DiscoveredView)
    ensures
        ({
            let view = camera_view(camera);
            &&& json::text_in(json::member(view, "address"@)) == Some(camera.address)
            &&& json::text_in(json::member(view, "name"@)) == camera.name
            &&& match camera.rssi {
                Some(rssi) => json::integer_in(json::member(view, "rssi"@)) == Some(rssi as i64),
                None => json::member(view, "rssi"@) == Some(JsonView::Null),
            }
        }),
{
    lemma_names();
    reveal_with_fuel(json::member_from, 4);
}

/// What `scan` lists has a line for each camera found, in order, which begins with its
/// address and name; and one line where it found none.
pub proof fn lemma_what_scan_lists(found: Seq<DiscoveredView>, i: int)
    ensures
        scan_text(found).len() == if found.len() == 0 {
            1
        } else {
            found.len()
        },
        0 <= i < found.len() ==> text::has_prefix(
            scan_text(found)[i],
            found[i].address + "  "@ + (match found[i].name {
                Some(name) => name,
                None => "(unnamed)"@,
            }),
        ),
        (0 <= i < found.len() && found[i].rssi is None) ==> scan_text(found)[i]
            == found[i].address + "  "@ + (match found[i].name {
            Some(name) => name,
            None => "(unnamed)"@,
        }),
        (0 <= i < found.len() && found[i].rssi is Some) ==> scan_text(found)[i]
            == found[i].address + "  "@ + (match found[i].name {
            Some(name) => name,
            None => "(unnamed)"@,
        }) + "  "@ + text::signed_decimal(found[i].rssi.unwrap() as int) + " dBm"@,
{
    if 0 <= i < found.len() {
        let start = found[i].address + "  "@ + (match found[i].name {
            Some(name) => name,
            None => "(unnamed)"@,
        });
        assert(scan_text(found)[i] == camera_line(found[i]));
        assert(camera_line(found[i]).take(start.len() as int) =~= start);
    }
}

/// What `info` reports of each reading is that reading alone: one that failed leaves
/// the others as they are, and is told by its error.
pub proof fn lemma_what_info_reports(readings: ReadingsView)
    ensures
        ({
            let view = info_view(readings);
            &&& readings.model matches Ok(model) ==> json::member(view, "model"@) == Some(
                JsonView::Text(model),
            )
            &&& readings.firmware matches Ok(firmware) ==> json::member(view, "firmware"@) == Some(
                JsonView::Text(firmware),
            )
            &&& readings.serial matches Ok(serial) ==> json::member(view, "serial"@) == Some(
                JsonView::Text(serial),
            )
            &&& readings.power matches Ok(power) ==> json::member(view, "power"@) == Some(
                JsonView::Text(power.label()),
            )
            &&& readings.wlan matches Ok(wlan) ==> json::member(view, "wlan"@) == Some(
                JsonView::Text(wlan.label()),
            )
            &&& readings.ble_enable_condition matches Ok(condition) ==> json::member(
                view,
                "ble_enable_condition"@,
            ) == Some(JsonView::Text(condition.label()))
            &&& readings.model matches Err(error) ==> json::member(view, "model"@) == Some(
                unavailable_view(error),
            )
            &&& readings.firmware matches Err(error) ==> json::member(view, "firmware"@) == Some(
                unavailable_view(error),
            )
            &&& readings.serial matches Err(error) ==> json::member(view, "serial"@) == Some(
                unavailable_view(error),
            )
            &&& readings.power matches Err(error) ==> json::member(view, "power"@) == Some(
                unavailable_view(error),
            )
            &&& readings.wlan matches Err(error) ==> json::member(view, "wlan"@) == Some(
                unavailable_view(error),
            )
            &&& readings.ble_enable_condition matches Err(error) ==> json::member(
                view,
                "ble_enable_condition"@,
            ) == Some(unavailable_view(error))
            &&& readings.battery matches Err(error) ==> json::member(view, "battery"@) == Some(
                unavailable_view(error),
            )
            &&& readings.storage matches Err(error) ==> json::member(view, "storage"@) == Some(
                unavailable_view(error),
            )
        }),
        readings.battery matches Ok(battery) ==> (json::member(
            info_view(readings),
            "battery"@,
        ) matches Some(found) && json::integer_in(json::member(found, "level"@)) == Some(
            battery.level as i64,
        ) && json::text_in(json::member(found, "source"@)) == Some(battery.source.label())),
        readings.storage matches Ok(slots) ==> (json::member(
            info_view(readings),
            "storage"@,
        ) matches Some(JsonView::Array(rows)) && rows.len() == slots.len() && forall|i: int|
            0 <= i < rows.len() ==> #[trigger] rows[i] == slot_view(slots[i])),
{
    lemma_names();
    reveal_with_fuel(json::member_from, 9);
}

/// What is reported of a slot is each of its facts, under its name.
pub proof fn lemma_what_is_reported_of_a_slot(slot: p::StorageSlot)
    ensures
        ({
            let view = slot_view(slot);
            &&& json::text_in(json::member(view, "kind"@)) == Some(slot.kind.label())
            &&& json::flag_in(json::member(view, "present"@)) == Some(slot.present)
            &&& json::flag_in(json::member(view, "locked"@)) == Some(slot.locked)
            &&& json::flag_in(json::member(view, "available"@)) == Some(slot.available)
            &&& json::flag_in(json::member(view, "formatted"@)) == Some(slot.formatted)
            &&& json::integer_in(json::member(view, "remaining_pictures"@)) == Some(
                slot.remaining_pictures as i64,
            )
            &&& json::integer_in(json::member(view, "remaining_video_seconds"@)) == Some(
                slot.remaining_video_seconds as i64,
            )
            &&& json::integer_in(json::member(view, "file_type"@)) == Some(slot.file_type as i64)
        }),
{
    lemma_names();
    reveal_with_fuel(json::member_from, 9);
}

/// What `wlan` reports and shows of an access point is how to join it, where it is up.
pub proof fn lemma_what_wlan_reports(credentials: CredentialsView)
    ensures
        json::text_in(json::member(wlan_view(Some(credentials)), "wlan"@)) == Some("ApMode"@),
        json::text_in(json::member(wlan_view(Some(credentials)), "ssid"@)) == Some(
            credentials.ssid,
        ),
        json::text_in(json::member(wlan_view(Some(credentials)), "passphrase"@)) == Some(
            credentials.passphrase,
        ),
        json::text_in(json::member(wlan_view(None), "wlan"@)) == Some("Off"@),
        json::member(wlan_view(None), "ssid"@) is None,
        json::member(wlan_view(None), "passphrase"@) is None,
        wlan_text(Some(credentials)) == seq![
            "SSID: "@ + credentials.ssid,
            "Pass: "@ + credentials.passphrase,
        ],
        wlan_text(None).len() == 1,
{
    lemma_names();
    reveal_with_fuel(json::member_from, 4);
}

/// What `raw` reports reads back: the characteristic from its UUID, and the bytes from
/// their digits.
pub proof fn lemma_what_raw_reports(uuid: Uuid, raw: Seq<u8>)
    requires
        raw.len() < 0x8000_0000_0000_0000,
    ensures
        ({
            let read = raw_read_view(uuid, raw);
            let wrote = raw_write_view(uuid, raw);
            &&& json::text_in(json::member(read, "uuid"@)) == Some(ids::uuid_chars(uuid))
            &&& json::text_in(json::member(wrote, "uuid"@)) == Some(ids::uuid_chars(uuid))
            &&& ids::uuid_value(ids::uuid_chars(uuid)) == Some(uuid as nat)
            &&& json::text_in(json::member(read, "hex"@)) matches Some(digits)
                && hexadecimal::paired_bytes(digits) == Some(raw)
            &&& json::text_in(json::member(wrote, "wrote"@)) matches Some(digits)
                && hexadecimal::paired_bytes(digits) == Some(raw)
            &&& json::text_in(json::member(read, "text"@)) == Some(p::decoded_text(raw))
            &&& json::integer_in(json::member(read, "len"@)) == Some(raw.len() as i64)
        }),
{
    lemma_names();
    reveal_with_fuel(json::member_from, 5);
    hexadecimal::lemma_hex_round_trips(raw);
    ids::lemma_uuid_round_trips(uuid);
}

/// What `list` reports and shows of the card is the camera, and every photo in the
/// order given, under its directory, its name and its key.
pub proof fn lemma_what_list_reports(props: PropsView, photos: Seq<PhotoView>, i: int)
    ensures
        json::text_in(json::member(list_view(props, photos), "model"@)) == Some(props.model),
        json::integer_in(json::member(list_view(props, photos), "battery"@)) == props.battery,
        json::member(list_view(props, photos), "photos"@) matches Some(JsonView::Array(rows))
            && rows.len() == photos.len() && (0 <= i < photos.len() ==> json::text_in(
            json::member(rows[i], "dir"@),
        ) == Some(photos[i].directory) && json::text_in(json::member(rows[i], "file"@)) == Some(
            photos[i].filename,
        ) && json::text_in(json::member(rows[i], "key"@)) == Some(photos[i].key())),
        list_text(props, photos).len() == photos.len() + 2,
        text::has_prefix(list_text(props, photos)[0], props.model),
        0 <= i < photos.len() ==> list_text(props, photos)[i + 1] == photos[i].key(),
        list_text(props, photos).last() == text::decimal(photos.len()) + " files"@,
{
    lemma_names();
    reveal_with_fuel(json::member_from, 4);
    let rows = photos.map_values(|photo: PhotoView| photo_view(photo));
    if 0 <= i < photos.len() {
        assert(rows[i] == photo_view(photos[i]));
    }
    let first = list_text(props, photos)[0];
    assert(first.take(props.model.len() as int) =~= props.model);
}

/// What `get` fetches is the photo that the key names, to where a sync would put it;
/// and it reports that photo, that path and its size.
pub proof fn lemma_what_get_fetches(key: Seq<char>, dest: Seq<char>, keep_dirs: bool, bytes: u64)
    ensures
        fetched(key, dest, keep_dirs) matches Ok((photo, target)) ==> {
            let view = fetched_view(photo, target, bytes);
            &&& photo.key() == key
            &&& target == sync::local(dest, photo, keep_dirs)
            &&& json::text_in(json::member(view, "photo"@)) == Some(key)
            &&& json::text_in(json::member(view, "path"@)) == Some(target)
            &&& json::member(view, "bytes"@) == Some(JsonView::Number(Some(bytes as i128)))
        },
        fetched(key, dest, keep_dirs) is Err <==> cli::photo_named(key) is Err,
{
    cli::lemma_what_names_a_photo(key);
    lemma_names();
    reveal_with_fuel(json::member_from, 4);
}

/// What `config` reports is every setting in effect, the file it is read from, and
/// where photos go.
pub proof fn lemma_what_config_reports(config: ConfigView, env: EnvironmentView, exists: bool)
    ensures
        ({
            let view = config_view(config, env, exists);
            &&& json::text_in(json::member(view, "dest"@)) == config.dest
            &&& json::text_in(json::member(view, "address"@)) == config.address
            &&& json::text_in(json::member(view, "wifi_backend"@)) == config.wifi_backend
            &&& json::text_in(json::member(view, "wifi_interface"@)) == config.wifi_interface
            &&& json::text_in(json::member(view, "host"@)) == Some(config.host)
            &&& json::integer_in(json::member(view, "min_battery"@)) == Some(
                config.min_battery as i64,
            )
            &&& json::flag_in(json::member(view, "power_off"@)) == Some(config.power_off)
            &&& json::flag_in(json::member(view, "keep_dirs"@)) == Some(config.keep_dirs)
            &&& json::text_in(json::member(view, "_path"@)) == Some(
                paths::joined(config::config_dir(env), "config.toml"@),
            )
            &&& json::flag_in(json::member(view, "_exists"@)) == Some(exists)
            &&& json::text_in(json::member(view, "_resolved_dest"@)) == Some(
                config::destination(config, None, env),
            )
        }),
{
    lemma_names();
    reveal_with_fuel(json::member_from, 12);
}

/// What `backends` reports and shows of one is its name and whether it works here.
pub proof fn lemma_what_backends_reports(backend: Backend, available: bool)
    ensures
        json::text_in(json::member(backend_view(backend, available), "name"@)) == Some(
            backend.label(),
        ),
        json::flag_in(json::member(backend_view(backend, available), "available"@)) == Some(
            available,
        ),
        text::has_prefix(
            backend_text(backend, available),
            (if available {
                "yes"@
            } else {
                "no "@
            }) + "  "@ + backend.label(),
        ),
{
    lemma_names();
    reveal_with_fuel(json::member_from, 3);
    let start = (if available {
        "yes"@
    } else {
        "no "@
    }) + "  "@ + backend.label();
    assert(backend_text(backend, available).take(start.len() as int) =~= start);
}

proof fn lemma_names()
    ensures
        "address"@.len() == 7 && "address"@[0] == 'a',
        "name"@.len() == 4 && "name"@[0] == 'n',
        "rssi"@.len() == 4 && "rssi"@[0] == 'r',
        "model"@.len() == 5 && "model"@[0] == 'm',
        "firmware"@.len() == 8,
        "serial"@.len() == 6 && "serial"@[0] == 's' && "serial"@[1] == 'e',
        "power"@.len() == 5 && "power"@[0] == 'p' && "power"@[1] == 'o',
        "wlan"@.len() == 4 && "wlan"@[0] == 'w',
        "ble_enable_condition"@.len() == 20,
        "battery"@.len() == 7 && "battery"@[0] == 'b',
        "storage"@.len() == 7 && "storage"@[0] == 's',
        "level"@.len() == 5 && "level"@[0] == 'l',
        "source"@.len() == 6 && "source"@[0] == 's' && "source"@[1] == 'o',
        "ssid"@.len() == 4 && "ssid"@[0] == 's',
        "passphrase"@.len() == 10,
        "uuid"@.len() == 4 && "uuid"@[0] == 'u',
        "hex"@.len() == 3 && "hex"@[0] == 'h',
        "text"@.len() == 4 && "text"@[0] == 't',
        "len"@.len() == 3 && "len"@[0] == 'l',
        "wrote"@.len() == 5 && "wrote"@[0] == 'w',
        "dir"@.len() == 3 && "dir"@[0] == 'd',
        "file"@.len() == 4 && "file"@[0] == 'f',
        "key"@.len() == 3 && "key"@[0] == 'k',
        "photos"@.len() == 6 && "photos"@[0] == 'p',
        "photo"@.len() == 5 && "photo"@[0] == 'p' && "photo"@[1] == 'h',
        "path"@.len() == 4 && "path"@[0] == 'p',
        "bytes"@.len() == 5 && "bytes"@[0] == 'b',
        "dest"@.len() == 4 && "dest"@[0] == 'd',
        "wifi_backend"@.len() == 12,
        "wifi_interface"@.len() == 14 && "wifi_interface"@[0] == 'w',
        "host"@.len() == 4 && "host"@[0] == 'h',
        "min_battery"@.len() == 11,
        "power_off"@.len() == 9 && "power_off"@[0] == 'p',
        "keep_dirs"@.len() == 9 && "keep_dirs"@[0] == 'k',
        "_path"@.len() == 5 && "_path"@[0] == '_',
        "_exists"@.len() == 7 && "_exists"@[0] == '_',
        "_resolved_dest"@.len() == 14 && "_resolved_dest"@[0] == '_',
        "available"@.len() == 9 && "available"@[0] == 'a',
        "kind"@.len() == 4 && "kind"@[0] == 'k',
        "present"@.len() == 7 && "present"@[0] == 'p',
        "locked"@.len() == 6 && "locked"@[0] == 'l',
        "formatted"@.len() == 9 && "formatted"@[0] == 'f' && "formatted"@[1] == 'o',
        "remaining_pictures"@.len() == 18,
        "remaining_video_seconds"@.len() == 23,
        "file_type"@.len() == 9 && "file_type"@[0] == 'f' && "file_type"@[1] == 'i',
{
    reveal_strlit("address");
    reveal_strlit("name");
    reveal_strlit("rssi");
    reveal_strlit("model");
    reveal_strlit("firmware");
    reveal_strlit("serial");
    reveal_strlit("power");
    reveal_strlit("wlan");
    reveal_strlit("ble_enable_condition");
    reveal_strlit("battery");
    reveal_strlit("storage");
    reveal_strlit("level");
    reveal_strlit("source");
    reveal_strlit("ssid");
    reveal_strlit("passphrase");
    reveal_strlit("uuid");
    reveal_strlit("hex");
    reveal_strlit("text");
    reveal_strlit("len");
    reveal_strlit("wrote");
    reveal_strlit("dir");
    reveal_strlit("file");
    reveal_strlit("key");
    reveal_strlit("photos");
    reveal_strlit("photo");
    reveal_strlit("path");
    reveal_strlit("bytes");
    reveal_strlit("dest");
    reveal_strlit("wifi_backend");
    reveal_strlit("wifi_interface");
    reveal_strlit("host");
    reveal_strlit("min_battery");
    reveal_strlit("power_off");
    reveal_strlit("keep_dirs");
    reveal_strlit("_path");
    reveal_strlit("_exists");
    reveal_strlit("_resolved_dest");
    reveal_strlit("available");
    reveal_strlit("kind");
    reveal_strlit("present");
    reveal_strlit("locked");
    reveal_strlit("formatted");
    reveal_strlit("remaining_pictures");
    reveal_strlit("remaining_video_seconds");
    reveal_strlit("file_type");
}

/// `wlan on` hands out an access point's credentials only where the camera was woken
/// before, and then those that raising it came to.
pub proof fn lemma_the_camera_is_woken_first<G: Gatt>(
    gatt: &G,
    result: ResultView<Option<CredentialsView>>,
)
    requires
        switched_on(gatt, result),
        result is Ok,
    ensures
        exists|woken: Seq<GattReply>|
            (#[trigger] ble::wake_result(gatt, 1500, Wake::Mode, woken)) matches Some(Ok(_)),
        exists|replies: Seq<GattReply>|
            (#[trigger] ble::start_ap_result(gatt, 3000, StartApView::Type, replies)) matches Some(
                Ok(credentials),
            ) && result == Ok::<_, ErrorView>(Some(credentials)),
{
}

} // verus!
