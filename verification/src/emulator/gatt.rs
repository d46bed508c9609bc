//! A model of the camera's GATT table, as data.
//!
//! # What this can and cannot prove
//!
//! This table is built from the same reverse-engineered documentation gr3sync
//! itself is built from. An end-to-end test against it is therefore **an oracle
//! that shares a convention with the thing it is testing**: if the documentation
//! is wrong about what `Network Type = 1` does, the emulator is wrong in exactly
//! the same way and the test passes anyway.
//!
//! So an emulator run verifies:
//!
//! * that the transport chain actually carries reads and writes end to end;
//! * that gr3sync's *sequence* of operations is what we think it is;
//! * regressions, once something has been shown to work.
//!
//! It cannot verify anything about the real camera's behaviour.
//!
//! # How it stops being a shared-convention oracle
//!
//! [`GattTable::from_doctor_report`] rebuilds the table from the JSON that
//! `gr3sync doctor --json` prints against a **real camera**. Seeded that way,
//! the table encodes observation rather than assumption, and the same tests
//! become meaningful.

use crate::hexadecimal;
use crate::ids;
use crate::ids::Uuid;
use crate::json;
use crate::json::{Json, JsonView};
use crate::protocol as p;
use crate::textmap::TextMap;
use vstd::prelude::*;

verus! {

#[derive(Debug, PartialEq, Eq)]
pub struct CharacteristicState {
    /// Friendly name, when one is known.
    pub name: Option<String>,
    /// Owning service. A GATT client reaches characteristics through their
    /// service, so the peripheral cannot be rebuilt without this.
    pub service: Option<String>,
    /// Current value, hex-encoded.
    pub value: String,
    pub writable: bool,
}

/// A characteristic, mathematically.
#[verifier::ext_equal]
pub struct StateView {
    pub name: Option<Seq<char>>,
    pub service: Option<Seq<char>>,
    pub value: Seq<char>,
    pub writable: bool,
}

impl View for CharacteristicState {
    type V = StateView;

    open spec fn view(&self) -> StateView {
        StateView {
            name: self.name.deep_view(),
            service: self.service.deep_view(),
            value: self.value@,
            writable: self.writable,
        }
    }
}

/// The bytes that a text writes in hexadecimal.
pub open spec fn hex_bytes(text: Seq<char>) -> Option<Seq<u8>> {
    if hexadecimal::even_bytes(text) {
        hexadecimal::paired_bytes(text)
    } else {
        None
    }
}

/// Whether a text can be taken apart into pairs of bytes without cutting a
/// character in two.
pub open spec fn is_readable(text: Seq<char>) -> bool {
    hexadecimal::even_bytes(text) ==> hexadecimal::cuts_in_pairs(text)
}

impl StateView {
    /// The current value; one that is not hexadecimal is empty.
    pub open spec fn bytes(self) -> Seq<u8> {
        match hex_bytes(self.value) {
            Some(bytes) => bytes,
            None => seq![],
        }
    }
}

pub fn encode_hex(bytes: &[u8]) -> (text: String)
    ensures
        text@ == hexadecimal::hex_of(bytes@),
{
    hexadecimal::hex_text(bytes)
}

pub fn decode_hex(text: &str) -> (bytes: Option<Vec<u8>>)
    requires
        is_readable(text@),
    ensures
        bytes.deep_view() == hex_bytes(text@),
{
    if !hexadecimal::has_even_bytes(text) {
        return None;
    }
    hexadecimal::pair_bytes(text)
}

impl CharacteristicState {
    /// Whether the value can be read.
    pub fn readable(&self) -> (yes: bool)
        ensures
            yes == is_readable(self@.value),
    {
        !hexadecimal::has_even_bytes(self.value.as_str()) || hexadecimal::readable_in_pairs(
            self.value.as_str(),
        )
    }

    pub fn bytes(&self) -> (bytes: Vec<u8>)
        requires
            is_readable(self@.value),
        ensures
            bytes@ == self@.bytes(),
    {
        match decode_hex(self.value.as_str()) {
            Some(bytes) => {
                assert(bytes.deep_view() =~= bytes@);
                bytes
            },
            None => Vec::new(),
        }
    }
}

/// Where a table came from.
#[derive(Debug, Clone, Copy, PartialEq, Eq, Structural)]
pub enum Provenance {
    /// Built from the reverse-engineered documentation. Shares its assumptions
    /// with gr3sync; proves nothing about a real camera.
    Specification,
    /// Captured from a real camera with `gr3sync doctor --json`.
    CapturedFromHardware,
}

impl Default for Provenance {
    fn default() -> (provenance: Self)
        ensures
            provenance == Provenance::Specification,
    {
        Provenance::Specification
    }
}

impl Provenance {
    pub fn is_hardware(self) -> (yes: bool)
        ensures
            yes == (self == Provenance::CapturedFromHardware),
    {
        self == Provenance::CapturedFromHardware
    }
}

/// SSID and passphrase the emulated camera reports once its AP is up.
pub const EMULATED_SSID: &'static str = "GR_EMULATED";

pub const EMULATED_PASSPHRASE: &'static str = "emulated0";

#[derive(Debug)]
pub struct GattTable {
    /// Where this table came from. Recorded so a test failure says whether it
    /// was reading a captured camera or a guess.
    pub provenance: Provenance,
    /// The characteristics, by the text of their UUID.
    pub characteristics: TextMap<CharacteristicState>,
}

/// The characteristics of a table, by the text of their UUID.
pub type TableView = Map<Seq<char>, StateView>;

impl View for GattTable {
    type V = TableView;

    open spec fn view(&self) -> TableView {
        self.characteristics@.map_values(|state: CharacteristicState| state@)
    }
}

/// The text of the service that a characteristic is documented to belong to.
pub open spec fn service_text(uuid: Uuid) -> Option<Seq<char>> {
    match p::documented_service(uuid) {
        Some(service) => Some(ids::uuid_chars(service)),
        None => None,
    }
}

fn service_name(uuid: Uuid) -> (text: Option<String>)
    ensures
        text.deep_view() == service_text(uuid),
{
    match p::service_of(uuid) {
        Some(service) => Some(ids::uuid_text(service)),
        None => None,
    }
}

/// A table with one more documented characteristic.
pub open spec fn with(
    table: TableView,
    uuid: Uuid,
    name: Seq<char>,
    value: Seq<u8>,
    writable: bool,
) -> TableView {
    table.insert(
        ids::uuid_chars(uuid),
        StateView {
            name: Some(name),
            service: service_text(uuid),
            value: hexadecimal::hex_of(value),
            writable,
        },
    )
}

/// The documented profile, with the camera switched off and Wi-Fi down.
pub open spec fn specified() -> TableView {
    let table = Map::empty();
    let table = with(table, p::CHAR_MODEL_NUMBER, "model_number"@, vstd::utf8::encode_utf8("RICOH GR III"@), false);
    let table = with(table, p::CHAR_FIRMWARE_REVISION, "firmware_revision"@, vstd::utf8::encode_utf8("1.90"@), false);
    let table = with(table, p::CHAR_SERIAL_NUMBER, "serial_number"@, vstd::utf8::encode_utf8("01234567"@), false);
    let table = with(table, p::CHAR_BLUETOOTH_DEVICE_NAME, "bluetooth_device_name"@, vstd::utf8::encode_utf8("GR_EMULATED"@), false);
    let table = with(table, p::CHAR_CAMERA_POWER, "camera_power"@, seq![0u8], true);
    let table = with(table, p::CHAR_OPERATION_MODE, "operation_mode"@, seq![0u8], true);
    let table = with(table, p::CHAR_BATTERY_LEVEL, "battery_level"@, seq![88u8, 0u8], false);
    let table = with(table, p::CHAR_BLE_ENABLE_CONDITION, "ble_enable_condition"@, seq![1u8], true);
    let table = with(table, p::CHAR_NETWORK_TYPE, "network_type"@, seq![0u8], true);
    let table = with(table, p::CHAR_SSID, "ssid"@, Seq::<u8>::empty(), true);
    let table = with(table, p::CHAR_PASSPHRASE, "passphrase"@, Seq::<u8>::empty(), true);
    let table = with(table, p::CHAR_CHANNEL, "channel"@, seq![0u8], true);
    let table = with(table, p::CHAR_FILE_TRANSFER_LIST, "file_transfer_list"@, seq![0u8, 0u8], false);
    let table = with(table, p::CHAR_STORAGE_INFORMATION, "storage_information"@, seq![1u8, 1u8, 1u8, 0u8, 1u8, 1u8, 210u8, 4u8, 0u8, 0u8, 88u8, 2u8, 0u8, 0u8, 0u8, 1u8], false);
    table
}

/// What a characteristic's row in a doctor report says, where the camera exposed
/// it. A report that does not say whether it is writable makes it read-only: an
/// emulator that refuses a legitimate write fails a test where you can see it,
/// while one that accepts a write the camera would reject hides the bug.
pub open spec fn row_state(row: JsonView) -> Option<(Seq<char>, StateView)> {
    match (
        json::flag_in(json::member(row, "exposed"@)),
        json::text_in(json::member(row, "uuid"@)),
    ) {
        (Some(true), Some(uuid)) => Some(
            (
                uuid,
                StateView {
                    name: json::text_in(json::member(row, "name"@)),
                    service: row_service(row, uuid),
                    value: match row_hex(row) {
                        Some(hex) => hex,
                        None => seq![],
                    },
                    writable: json::flag_in(json::member(row, "writable"@)) == Some(true),
                },
            ),
        ),
        _ => None,
    }
}

/// The bytes that a row reports, in hexadecimal; none where they could not be
/// read.
pub open spec fn row_hex(row: JsonView) -> Option<Seq<char>> {
    match json::member(row, "value"@) {
        Some(value) => json::text_in(json::member(value, "hex"@)),
        None => None,
    }
}

/// The service that a row names, or else the documented one, so a report from an
/// older `doctor` still produces a usable table.
pub open spec fn row_service(row: JsonView, uuid: Seq<char>) -> Option<Seq<char>> {
    match json::text_in(json::member(row, "service"@)) {
        Some(service) => Some(service),
        None => match ids::uuid_value(uuid) {
            Some(value) => service_text(value as u128),
            None => None,
        },
    }
}

/// What the rows of a doctor report say; of two for one UUID, the later.
pub open spec fn reported(rows: Seq<JsonView>) -> TableView
    decreases rows.len(),
{
    if rows.len() == 0 {
        Map::empty()
    } else {
        match row_state(rows.last()) {
            Some((uuid, state)) => reported(rows.drop_last()).insert(uuid, state),
            None => reported(rows.drop_last()),
        }
    }
}

/// What a write does to a table: the value is kept, and raising or dropping the
/// access point brings and takes its credentials.
pub open spec fn written(table: TableView, uuid: Uuid, value: Seq<u8>) -> TableView {
    let kept = assigned(table, uuid, value);
    if uuid != p::CHAR_NETWORK_TYPE || value.len() == 0 {
        kept
    } else if p::sint8(value[0]) == p::NetworkType::ApMode.code() {
        assigned(
            assigned(kept, p::CHAR_SSID, vstd::utf8::encode_utf8("GR_EMULATED"@)),
            p::CHAR_PASSPHRASE,
            vstd::utf8::encode_utf8("emulated0"@),
        )
    } else if p::sint8(value[0]) == p::NetworkType::Off.code() {
        assigned(assigned(kept, p::CHAR_SSID, seq![]), p::CHAR_PASSPHRASE, seq![])
    } else {
        kept
    }
}

/// A table in which a characteristic has a value. One that was not there yet is
/// writable.
pub open spec fn assigned(table: TableView, uuid: Uuid, value: Seq<u8>) -> TableView {
    let key = ids::uuid_chars(uuid);
    table.insert(
        key,
        if table.contains_key(key) {
            StateView { value: hexadecimal::hex_of(value), ..table[key] }
        } else {
            StateView {
                name: None,
                service: service_text(uuid),
                value: hexadecimal::hex_of(value),
                writable: true,
            }
        },
    )
}

/// The bytes of a characteristic, where the table has it.
pub open spec fn value_in(table: TableView, uuid: Uuid) -> Option<Seq<u8>> {
    if table.contains_key(ids::uuid_chars(uuid)) {
        Some(table[ids::uuid_chars(uuid)].bytes())
    } else {
        None
    }
}

/// Whether a characteristic can be read, where the table has it.
pub open spec fn readable_in(table: TableView, uuid: Uuid) -> bool {
    table.contains_key(ids::uuid_chars(uuid)) ==> is_readable(table[ids::uuid_chars(uuid)].value)
}

fn optional_member_text(value: &Json, key: &str) -> (text: Option<String>)
    ensures
        text.deep_view() == json::text_in(json::member(value@, key@)),
{
    match value.get(key) {
        Some(member) => match member.as_str() {
            Some(text) => Some(text.to_owned()),
            None => None,
        },
        None => None,
    }
}

fn member_flag(value: &Json, key: &str) -> (flag: Option<bool>)
    ensures
        flag == json::flag_in(json::member(value@, key@)),
{
    match value.get(key) {
        Some(member) => member.as_bool(),
        None => None,
    }
}

/// Prefer the service the report names; fall back to the documented mapping.
fn service_from_row(row: &Json, uuid: &str) -> (service: Option<String>)
    ensures
        service.deep_view() == row_service(row@, uuid@),
{
    match optional_member_text(row, "service") {
        Some(service) => Some(service),
        None => match ids::parse_uuid(uuid) {
            Some(value) => service_name(value),
            None => None,
        },
    }
}

fn state_from_row(row: &Json) -> (entry: Option<(String, CharacteristicState)>)
    ensures
        match entry {
            Some((uuid, state)) => row_state(row@) == Some((uuid@, state@)),
            None => row_state(row@) is None,
        },
{
    match (member_flag(row, "exposed"), optional_member_text(row, "uuid")) {
        (Some(true), Some(uuid)) => {
            let hex = match row.get("value") {
                Some(value) => optional_member_text(value, "hex"),
                None => None,
            };
            let value = match hex {
                Some(hex) => hex,
                None => {
                    // Exposed but unreadable: keep it present with no value
                    // rather than inventing one.
                    let none = String::new();
                    assert(none@ =~= Seq::<char>::empty());
                    none
                },
            };
            let state = CharacteristicState {
                name: optional_member_text(row, "name"),
                service: service_from_row(row, uuid.as_str()),
                value,
                writable: match member_flag(row, "writable") {
                    Some(writable) => writable,
                    None => false,
                },
            };
            Some((uuid, state))
        },
        _ => None,
    }
}

impl GattTable {
    fn put(&mut self, uuid: Uuid, name: &str, value: &[u8], writable: bool)
        ensures
            final(self)@ == with(old(self)@, uuid, name@, value@, writable),
            final(self).provenance == old(self).provenance,
    {
        let state = CharacteristicState {
            name: Some(name.to_owned()),
            service: service_name(uuid),
            value: encode_hex(value),
            writable,
        };
        self.characteristics.insert(ids::uuid_text(uuid), state);
        assert(self@ =~= with(old(self)@, uuid, name@, value@, writable));
    }

    /// The documented profile, with the camera switched off and Wi-Fi down:
    /// the state a sync has to drive it out of.
    pub fn specification() -> (table: Self)
        ensures
            table.provenance == Provenance::Specification,
            table@ == specified(),
    {
        let mut table = GattTable {
            provenance: Provenance::Specification,
            characteristics: TextMap::new(),
        };
        let nothing: Vec<u8> = Vec::new();
        assert(nothing@ =~= Seq::<u8>::empty());
        assert(table@ =~= Map::<Seq<char>, StateView>::empty());
        table.put(p::CHAR_MODEL_NUMBER, "model_number", "RICOH GR III".as_bytes(), false);
        table.put(p::CHAR_FIRMWARE_REVISION, "firmware_revision", "1.90".as_bytes(), false);
        table.put(p::CHAR_SERIAL_NUMBER, "serial_number", "01234567".as_bytes(), false);
        table.put(p::CHAR_BLUETOOTH_DEVICE_NAME, "bluetooth_device_name", "GR_EMULATED".as_bytes(), false);
        let camera_power: Vec<u8> = vec![0];
        assert(camera_power@ =~= seq![0u8]);
        table.put(p::CHAR_CAMERA_POWER, "camera_power", camera_power.as_slice(), true);
        let operation_mode: Vec<u8> = vec![0];
        assert(operation_mode@ =~= seq![0u8]);
        table.put(p::CHAR_OPERATION_MODE, "operation_mode", operation_mode.as_slice(), true);
        // 88%, running on battery.
        let battery_level: Vec<u8> = vec![88, 0];
        assert(battery_level@ =~= seq![88u8, 0u8]);
        table.put(p::CHAR_BATTERY_LEVEL, "battery_level", battery_level.as_slice(), false);
        let ble_enable_condition: Vec<u8> = vec![1];
        assert(ble_enable_condition@ =~= seq![1u8]);
        table.put(p::CHAR_BLE_ENABLE_CONDITION, "ble_enable_condition", ble_enable_condition.as_slice(), true);
        let network_type: Vec<u8> = vec![0];
        assert(network_type@ =~= seq![0u8]);
        table.put(p::CHAR_NETWORK_TYPE, "network_type", network_type.as_slice(), true);
        // Empty until the access point comes up: a camera whose wireless LAN has never
        // been enabled is reported to return stale or empty strings, and gr3sync must
        // not hand an empty SSID to the Wi-Fi layer.
        table.put(p::CHAR_SSID, "ssid", nothing.as_slice(), true);
        table.put(p::CHAR_PASSPHRASE, "passphrase", nothing.as_slice(), true);
        let channel: Vec<u8> = vec![0];
        assert(channel@ =~= seq![0u8]);
        table.put(p::CHAR_CHANNEL, "channel", channel.as_slice(), true);
        let file_transfer_list: Vec<u8> = vec![0, 0];
        assert(file_transfer_list@ =~= seq![0u8, 0u8]);
        table.put(p::CHAR_FILE_TRANSFER_LIST, "file_transfer_list", file_transfer_list.as_slice(), false);
        // One card with room for 1234 pictures or 600 seconds of video.
        let storage_information: Vec<u8> = vec![1, 1, 1, 0, 1, 1, 210, 4, 0, 0, 88, 2, 0, 0, 0, 1];
        assert(storage_information@ =~= seq![1u8, 1u8, 1u8, 0u8, 1u8, 1u8, 210u8, 4u8, 0u8, 0u8, 88u8, 2u8, 0u8, 0u8, 0u8, 1u8]);
        table.put(p::CHAR_STORAGE_INFORMATION, "storage_information", storage_information.as_slice(), false);
        table
    }

    /// Rebuild from the JSON `gr3sync doctor --json` prints against a real
    /// camera, so the emulator replays observed bytes instead of assumed ones.
    ///
    /// Characteristics the camera did not expose are dropped, which is the
    /// point: a test against this table then fails the same way the real
    /// camera would.
    pub fn from_doctor_report(report: &Json) -> (table: std::result::Result<Self, String>)
        ensures
            match (json::items_in(json::member(report@, "documented"@)), table) {
                (None, Err(reason)) => reason@ == "doctor report has no 'documented' array"@,
                (Some(rows), Err(reason)) => reported(rows) == Map::<
                    Seq<char>,
                    StateView,
                >::empty() && reason@ == "doctor report exposed no characteristics"@,
                (Some(rows), Ok(table)) => {
                    &&& reported(rows) != Map::<Seq<char>, StateView>::empty()
                    &&& table@ == reported(rows)
                    &&& table.provenance == Provenance::CapturedFromHardware
                },
                (None, Ok(_)) => false,
            },
    {
        let rows = match report.get("documented") {
            Some(rows) => rows.as_array(),
            None => None,
        };
        match rows {
            None => Err("doctor report has no 'documented' array".to_owned()),
            Some(rows) => {
                let ghost views = rows.deep_view();
                let mut table = GattTable {
                    provenance: Provenance::CapturedFromHardware,
                    characteristics: TextMap::new(),
                };
                let mut i: usize = 0;
                assert(table@ =~= Map::<Seq<char>, StateView>::empty());
                assert(views.take(0) =~= Seq::empty());
                while i < rows.len()
                    invariant
                        i <= rows@.len(),
                        views == rows.deep_view(),
                        table.provenance == Provenance::CapturedFromHardware,
                        table@ == reported(views.take(i as int)),
                    decreases rows@.len() - i,
                {
                    let ghost before = table@;
                    proof {
                        assert(views.take(i + 1).drop_last() =~= views.take(i as int));
                        assert(views.take(i + 1).last() == rows@[i as int]@);
                    }
                    match state_from_row(&rows[i]) {
                        Some((uuid, state)) => {
                            let ghost key = uuid@;
                            let ghost seen = state@;
                            table.characteristics.insert(uuid, state);
                            assert(table@ =~= before.insert(key, seen));
                        },
                        None => {},
                    }
                    i += 1;
                }
                assert(views.take(rows@.len() as int) =~= views);
                let count: usize = table.characteristics.len();
                assert(table@.dom() =~= table.characteristics@.dom());
                if count == 0 {
                    assert(table@.dom() =~= Set::empty());
                    assert(table@ =~= Map::<Seq<char>, StateView>::empty());
                    Err("doctor report exposed no characteristics".to_owned())
                } else {
                    assert(Map::<Seq<char>, StateView>::empty().dom() =~= Set::empty());
                    Ok(table)
                }
            },
        }
    }

    /// Rebuild from the text that `gr3sync doctor --json` printed against a real
    /// camera.
    pub fn from_doctor_text(text: &[u8]) -> (table: std::result::Result<Self, String>)
        ensures
            match json::json_document(text@) {
                None => table matches Err(reason) && reason@ == "doctor report is not JSON"@,
                Some(report) => match (json::items_in(json::member(report, "documented"@)), table) {
                    (None, Err(reason)) => reason@ == "doctor report has no 'documented' array"@,
                    (Some(rows), Err(reason)) => reported(rows) == Map::<
                        Seq<char>,
                        StateView,
                    >::empty() && reason@ == "doctor report exposed no characteristics"@,
                    (Some(rows), Ok(table)) => {
                        &&& reported(rows) != Map::<Seq<char>, StateView>::empty()
                        &&& table@ == reported(rows)
                        &&& table.provenance == Provenance::CapturedFromHardware
                    },
                    (None, Ok(_)) => false,
                },
            },
    {
        match json::read_json(text) {
            Some(report) => Self::from_doctor_report(&report),
            None => Err("doctor report is not JSON".to_owned()),
        }
    }

    pub fn get(&self, uuid: Uuid) -> (state: Option<&CharacteristicState>)
        ensures
            match state {
                Some(state) => self@.contains_key(ids::uuid_chars(uuid)) && state@
                    == self@[ids::uuid_chars(uuid)],
                None => !self@.contains_key(ids::uuid_chars(uuid)),
            },
    {
        self.characteristics.get(ids::uuid_text(uuid).as_str())
    }

    /// Whether a characteristic can be read, where the table has it.
    pub fn readable(&self, uuid: Uuid) -> (yes: bool)
        ensures
            yes == readable_in(self@, uuid),
    {
        match self.get(uuid) {
            Some(state) => state.readable(),
            None => true,
        }
    }

    pub fn read(&self, uuid: Uuid) -> (value: Option<Vec<u8>>)
        requires
            readable_in(self@, uuid),
        ensures
            match value {
                Some(value) => value_in(self@, uuid) == Some(value@),
                None => value_in(self@, uuid) is None,
            },
    {
        match self.get(uuid) {
            Some(state) => Some(state.bytes()),
            None => None,
        }
    }

    pub fn set(&mut self, uuid: Uuid, value: &[u8])
        ensures
            final(self)@ == assigned(old(self)@, uuid, value@),
            final(self).provenance == old(self).provenance,
    {
        let state = match self.get(uuid) {
            Some(state) => CharacteristicState {
                name: state.name.clone(),
                service: state.service.clone(),
                value: encode_hex(value),
                writable: state.writable,
            },
            None => CharacteristicState {
                name: None,
                service: service_name(uuid),
                value: encode_hex(value),
                writable: true,
            },
        };
        self.characteristics.insert(ids::uuid_text(uuid), state);
        assert(self@ =~= assigned(old(self)@, uuid, value@));
    }

    /// Apply a write the way the documentation says the camera would.
    ///
    /// The side effects here (raising the access point, populating the
    /// credentials) are **assumptions from the documentation**, not observed
    /// camera behaviour. That is the whole shared-convention caveat, localised
    /// to one function.
    pub fn write(&mut self, uuid: Uuid, value: &[u8]) -> (result: std::result::Result<(), String>)
        ensures
            final(self).provenance == old(self).provenance,
            ({
                let key = ids::uuid_chars(uuid);
                match result {
                    Ok(_) => {
                        &&& old(self)@.contains_key(key) && old(self)@[key].writable
                        &&& final(self)@ == written(old(self)@, uuid, value@)
                    },
                    Err(reason) => {
                        &&& final(self)@ == old(self)@
                        &&& if old(self)@.contains_key(key) {
                            !old(self)@[key].writable && reason@ == key + " is not writable"@
                        } else {
                            reason@ == key + " is not exposed by this camera"@
                        }
                    },
                }
            }),
    {
        match self.get(uuid) {
            Some(state) => {
                if !state.writable {
                    let mut reason = ids::uuid_text(uuid);
                    reason.append(" is not writable");
                    return Err(reason);
                }
            },
            None => {
                let mut reason = ids::uuid_text(uuid);
                reason.append(" is not exposed by this camera");
                return Err(reason);
            },
        }
        self.set(uuid, value);
        if uuid == p::CHAR_NETWORK_TYPE && value.len() > 0 {
            if value[0] == 1 {
                self.set(p::CHAR_SSID, EMULATED_SSID.as_bytes());
                self.set(p::CHAR_PASSPHRASE, EMULATED_PASSPHRASE.as_bytes());
            } else if value[0] == 0 {
                let none: Vec<u8> = Vec::new();
                assert(none@ =~= Seq::<u8>::empty());
                self.set(p::CHAR_SSID, none.as_slice());
                self.set(p::CHAR_PASSPHRASE, none.as_slice());
            }
        }
        Ok(())
    }

    pub fn access_point_is_up(&self) -> (up: bool)
        requires
            readable_in(self@, p::CHAR_NETWORK_TYPE),
        ensures
            up == (value_in(self@, p::CHAR_NETWORK_TYPE) matches Some(value) && value.len() > 0
                && p::sint8(value[0]) == p::NetworkType::ApMode.code()),
    {
        match self.read(p::CHAR_NETWORK_TYPE) {
            Some(value) => value.len() > 0 && value[0] == 1,
            None => false,
        }
    }

    pub fn power(&self) -> (power: Option<p::CameraPower>)
        requires
            readable_in(self@, p::CHAR_CAMERA_POWER),
        ensures
            power == match value_in(self@, p::CHAR_CAMERA_POWER) {
                Some(value) => if value.len() > 0 {
                    match p::CameraPower::read_back(p::sint8(value[0])) {
                        Ok(power) => Some(power),
                        Err(_) => None,
                    }
                } else {
                    None
                },
                None => None,
            },
    {
        match self.read(p::CHAR_CAMERA_POWER) {
            Some(value) => match p::decode_sint8(p::CHAR_CAMERA_POWER, value.as_slice()) {
                Ok(code) => match p::CameraPower::from_i8(code) {
                    Ok(power) => Some(power),
                    Err(_) => None,
                },
                Err(_) => None,
            },
            None => None,
        }
    }
}

/// What is written reads back.
pub proof fn lemma_writes_read_back(table: TableView, uuid: Uuid, value: Seq<u8>)
    ensures
        value_in(written(table, uuid, value), uuid) == Some(value),
        readable_in(written(table, uuid, value), uuid),
{
    hexadecimal::lemma_hex_round_trips(value);
    lemma_distinct(uuid);
}

proof fn lemma_distinct(uuid: Uuid)
    ensures
        uuid != p::CHAR_SSID ==> ids::uuid_chars(uuid) != ids::uuid_chars(p::CHAR_SSID),
        uuid != p::CHAR_PASSPHRASE ==> ids::uuid_chars(uuid) != ids::uuid_chars(
            p::CHAR_PASSPHRASE,
        ),
{
    if ids::uuid_chars(uuid) == ids::uuid_chars(p::CHAR_SSID) {
        ids::lemma_uuid_text_is_injective(uuid, p::CHAR_SSID);
    }
    if ids::uuid_chars(uuid) == ids::uuid_chars(p::CHAR_PASSPHRASE) {
        ids::lemma_uuid_text_is_injective(uuid, p::CHAR_PASSPHRASE);
    }
}

/// Writing AP mode brings the credentials, and writing off takes them away.
pub proof fn lemma_the_access_point_has_credentials(table: TableView)
    ensures
        ({
            let up = written(table, p::CHAR_NETWORK_TYPE, seq![1u8]);
            &&& value_in(up, p::CHAR_SSID) == Some(vstd::utf8::encode_utf8("GR_EMULATED"@))
            &&& value_in(up, p::CHAR_PASSPHRASE) == Some(vstd::utf8::encode_utf8("emulated0"@))
        }),
        ({
            let down = written(table, p::CHAR_NETWORK_TYPE, seq![0u8]);
            &&& value_in(down, p::CHAR_SSID) == Some(Seq::<u8>::empty())
            &&& value_in(down, p::CHAR_PASSPHRASE) == Some(Seq::<u8>::empty())
        }),
{
    lemma_distinct(p::CHAR_PASSPHRASE);
    hexadecimal::lemma_hex_round_trips(vstd::utf8::encode_utf8("GR_EMULATED"@));
    hexadecimal::lemma_hex_round_trips(vstd::utf8::encode_utf8("emulated0"@));
    hexadecimal::lemma_hex_round_trips(Seq::empty());
}

/// A write leaves every characteristic alone but the one written and, where that
/// is the network type, the credentials.
pub proof fn lemma_writes_touch_nothing_else(
    table: TableView,
    uuid: Uuid,
    value: Seq<u8>,
    key: Seq<char>,
)
    requires
        key != ids::uuid_chars(uuid),
        uuid == p::CHAR_NETWORK_TYPE ==> key != ids::uuid_chars(p::CHAR_SSID) && key
            != ids::uuid_chars(p::CHAR_PASSPHRASE),
    ensures
        written(table, uuid, value).contains_key(key) == table.contains_key(key),
        table.contains_key(key) ==> written(table, uuid, value)[key] == table[key],
{
}

proof fn lemma_apart(a: Uuid, b: Uuid)
    requires
        a != b,
    ensures
        ids::uuid_chars(a) != ids::uuid_chars(b),
{
    if ids::uuid_chars(a) == ids::uuid_chars(b) {
        ids::lemma_uuid_text_is_injective(a, b);
    }
}

/// The documented camera starts switched off, with its access point down and no
/// credentials to give.
pub proof fn lemma_the_specified_camera_is_off_and_dark()
    ensures
        value_in(specified(), p::CHAR_CAMERA_POWER) == Some(
            seq![p::sint8_byte(p::CameraPower::Off.code())],
        ),
        value_in(specified(), p::CHAR_NETWORK_TYPE) == Some(
            seq![p::sint8_byte(p::NetworkType::Off.code())],
        ),
        value_in(specified(), p::CHAR_SSID) == Some(Seq::<u8>::empty()),
        value_in(specified(), p::CHAR_PASSPHRASE) == Some(Seq::<u8>::empty()),
{
    lemma_apart(p::CHAR_CAMERA_POWER, p::CHAR_OPERATION_MODE);
    lemma_apart(p::CHAR_CAMERA_POWER, p::CHAR_BATTERY_LEVEL);
    lemma_apart(p::CHAR_CAMERA_POWER, p::CHAR_BLE_ENABLE_CONDITION);
    lemma_apart(p::CHAR_CAMERA_POWER, p::CHAR_NETWORK_TYPE);
    lemma_apart(p::CHAR_CAMERA_POWER, p::CHAR_SSID);
    lemma_apart(p::CHAR_CAMERA_POWER, p::CHAR_PASSPHRASE);
    lemma_apart(p::CHAR_CAMERA_POWER, p::CHAR_CHANNEL);
    lemma_apart(p::CHAR_CAMERA_POWER, p::CHAR_FILE_TRANSFER_LIST);
    lemma_apart(p::CHAR_CAMERA_POWER, p::CHAR_STORAGE_INFORMATION);
    lemma_apart(p::CHAR_NETWORK_TYPE, p::CHAR_SSID);
    lemma_apart(p::CHAR_NETWORK_TYPE, p::CHAR_PASSPHRASE);
    lemma_apart(p::CHAR_NETWORK_TYPE, p::CHAR_CHANNEL);
    lemma_apart(p::CHAR_NETWORK_TYPE, p::CHAR_FILE_TRANSFER_LIST);
    lemma_apart(p::CHAR_NETWORK_TYPE, p::CHAR_STORAGE_INFORMATION);
    lemma_apart(p::CHAR_SSID, p::CHAR_PASSPHRASE);
    lemma_apart(p::CHAR_SSID, p::CHAR_CHANNEL);
    lemma_apart(p::CHAR_SSID, p::CHAR_FILE_TRANSFER_LIST);
    lemma_apart(p::CHAR_SSID, p::CHAR_STORAGE_INFORMATION);
    lemma_apart(p::CHAR_PASSPHRASE, p::CHAR_CHANNEL);
    lemma_apart(p::CHAR_PASSPHRASE, p::CHAR_FILE_TRANSFER_LIST);
    lemma_apart(p::CHAR_PASSPHRASE, p::CHAR_STORAGE_INFORMATION);
    hexadecimal::lemma_hex_round_trips(seq![0u8]);
    hexadecimal::lemma_hex_round_trips(Seq::empty());
}

/// Every documented characteristic of the table carries its service: without it
/// a Bluetooth peripheral could not be built from the table.
pub proof fn lemma_every_characteristic_carries_its_service(key: Seq<char>)
    requires
        specified().contains_key(key),
    ensures
        specified()[key].service is Some,
{
    reveal(p::profile);
    p::lemma_entries_resolve(0);
    p::lemma_entries_resolve(1);
    p::lemma_entries_resolve(2);
    p::lemma_entries_resolve(4);
    p::lemma_entries_resolve(5);
    p::lemma_entries_resolve(6);
    p::lemma_entries_resolve(8);
    p::lemma_entries_resolve(19);
    p::lemma_entries_resolve(15);
    p::lemma_entries_resolve(16);
    p::lemma_entries_resolve(17);
    p::lemma_entries_resolve(18);
    p::lemma_entries_resolve(10);
    p::lemma_entries_resolve(9);
    assert(p::profile()[0].uuid == p::CHAR_MODEL_NUMBER);
    assert(p::profile()[1].uuid == p::CHAR_FIRMWARE_REVISION);
    assert(p::profile()[2].uuid == p::CHAR_SERIAL_NUMBER);
    assert(p::profile()[4].uuid == p::CHAR_BLUETOOTH_DEVICE_NAME);
    assert(p::profile()[5].uuid == p::CHAR_CAMERA_POWER);
    assert(p::profile()[6].uuid == p::CHAR_OPERATION_MODE);
    assert(p::profile()[8].uuid == p::CHAR_BATTERY_LEVEL);
    assert(p::profile()[19].uuid == p::CHAR_BLE_ENABLE_CONDITION);
    assert(p::profile()[15].uuid == p::CHAR_NETWORK_TYPE);
    assert(p::profile()[16].uuid == p::CHAR_SSID);
    assert(p::profile()[17].uuid == p::CHAR_PASSPHRASE);
    assert(p::profile()[18].uuid == p::CHAR_CHANNEL);
    assert(p::profile()[10].uuid == p::CHAR_FILE_TRANSFER_LIST);
    assert(p::profile()[9].uuid == p::CHAR_STORAGE_INFORMATION);
}

/// What a write leaves of the characteristic written: its name, its service and
/// whether it can be written; and a network type that is neither on nor off leaves the
/// credentials as they were.
pub proof fn lemma_what_a_write_keeps(table: TableView, uuid: Uuid, value: Seq<u8>)
    ensures
        ({
            let key = ids::uuid_chars(uuid);
            let after = written(table, uuid, value);
            &&& after.contains_key(key)
            &&& table.contains_key(key) ==> after[key].name == table[key].name && after[key].service
                == table[key].service && after[key].writable == table[key].writable
            &&& !table.contains_key(key) ==> after[key].service == service_text(uuid)
                && after[key].writable
        }),
        (value.len() > 0 && value[0] != 0 && value[0] != 1 && uuid != p::CHAR_SSID && uuid
            != p::CHAR_PASSPHRASE) ==> value_in(written(table, uuid, value), p::CHAR_SSID)
            == value_in(table, p::CHAR_SSID) && value_in(
            written(table, uuid, value),
            p::CHAR_PASSPHRASE,
        ) == value_in(table, p::CHAR_PASSPHRASE),
{
    lemma_distinct(uuid);
    lemma_distinct(p::CHAR_NETWORK_TYPE);
}

/// Of two parts of a report the later counts where it speaks of a characteristic, and
/// the earlier everywhere else.
pub proof fn lemma_later_rows_count(first: Seq<JsonView>, second: Seq<JsonView>, key: Seq<char>)
    ensures
        reported(second).contains_key(key) ==> reported(first + second).contains_key(key)
            && reported(first + second)[key] == reported(second)[key],
        !reported(second).contains_key(key) ==> reported(first + second).contains_key(key)
            == reported(first).contains_key(key) && reported(first + second)[key] == reported(
            first,
        )[key],
    decreases second.len(),
{
    if second.len() > 0 {
        assert((first + second).drop_last() =~= first + second.drop_last());
        lemma_later_rows_count(first, second.drop_last(), key);
    } else {
        assert(first + second =~= first);
    }
}

/// What one row of a report says: an exposed characteristic goes by its UUID, with the
/// name, the service and the bytes that the row gives; it can be written only where the
/// row says so, and its service is the documented one where the row names none. One
/// that is not exposed is not there.
pub proof fn lemma_what_a_row_says(
    row: JsonView,
    uuid: Uuid,
    hex: Seq<char>,
    value: JsonView,
)
    requires
        json::member(row, "uuid"@) == Some(JsonView::Text(ids::uuid_chars(uuid))),
    ensures
        ({
            let table = reported(seq![row]);
            let key = ids::uuid_chars(uuid);
            let state = table[key];
            &&& table.contains_key(key) <==> json::member(row, "exposed"@) == Some(
                JsonView::Bool(true),
            )
            &&& forall|other: Seq<char>| #[trigger] table.contains_key(other) ==> other == key
            &&& table.contains_key(key) ==> {
                &&& state.name == json::text_in(json::member(row, "name"@))
                &&& state.writable <==> json::member(row, "writable"@) == Some(
                    JsonView::Bool(true),
                )
                &&& (json::member(row, "value"@) == Some(value) && json::member(value, "hex"@)
                    == Some(JsonView::Text(hex))) ==> state.value == hex
                &&& json::member(row, "value"@) is None ==> state.value.len() == 0
                &&& json::text_in(json::member(row, "service"@)) is None ==> state.service
                    == service_text(uuid)
                &&& json::text_in(json::member(row, "service"@)) is Some ==> state.service
                    == json::text_in(json::member(row, "service"@))
            }
        }),
{
    assert(seq![row].drop_last() =~= Seq::empty());
    assert(seq![row].last() == row);
    assert(reported(Seq::empty()) =~= Map::empty());
    ids::lemma_uuid_round_trips(uuid);
}

} // verus!
