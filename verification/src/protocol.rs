//! Wire-level constants and codecs for the RICOH GR III BLE GATT interface.
//!
//! Deliberately free of any Bluetooth stack dependency: this module holds the
//! service/characteristic UUIDs and the pure `bytes <-> value` conversions,
//! which keeps the part of the protocol that can be reasoned about separate
//! from the transport. It is also the only part of the BLE story that can be
//! tested without a camera in the room.
//!
//! Source of the UUIDs and value encodings: the community reverse-engineering
//! effort at <https://github.com/dm-zharov/ricoh-gr-bluetooth-api> (Unlicense).
//! Nothing here is officially documented by RICOH.

use crate::error;
use crate::error::{Error, ErrorView, Result, ResultView};
use crate::ids;
use crate::ids::Uuid;
use crate::text;
use vstd::prelude::*;

verus! {

// Services
pub const SERVICE_CAMERA_INFORMATION: Uuid = 0x9a5ed1c5_74cc_4c50_b5b6_66a48e7ccff1;
pub const SERVICE_BLUETOOTH_INFORMATION: Uuid = 0x6fe9d605_3122_4fce_a0ae_fd9bc08ff879;
pub const SERVICE_CAMERA: Uuid = 0x4b445988_caa0_4dd3_941d_37b4f52aca86;
pub const SERVICE_WLAN_CONTROL: Uuid = 0xf37f568f_9071_445d_a938_5441f2e82399;
pub const SERVICE_BLUETOOTH_CONTROL: Uuid = 0x0f291746_0c80_4726_87a7_3c501fd3b4b6;
pub const SERVICE_SHOOTING_CONTROL: Uuid = 0x9f00f387_8345_4bbc_8b92_b87b52e3091a;
pub const SERVICE_GPS_CONTROL: Uuid = 0x84a0dd62_e8aa_4d0f_91db_819b6724c69e;
// Camera Information service
pub const CHAR_MODEL_NUMBER: Uuid = 0x35fe6272_6aa5_44d9_88e1_f09427f51a71;
pub const CHAR_FIRMWARE_REVISION: Uuid = 0xb4eb8905_7411_40a6_a367_2834c2157ea7;
pub const CHAR_SERIAL_NUMBER: Uuid = 0x0d2fc4d5_5cb3_4cde_b519_445e599957d8;
// Bluetooth Information service
pub const CHAR_BLUETOOTH_DEVICE_NAME: Uuid = 0x97e34da2_2e1a_405b_b80d_f8f0aa9cc51c;
// Camera service
pub const CHAR_CAMERA_POWER: Uuid = 0xb58ce84c_0666_4de9_bec8_2d27b27b3211;
pub const CHAR_OPERATION_MODE: Uuid = 0x1452335a_ec7f_4877_b8ab_0f72e18bb295;
pub const CHAR_BATTERY_LEVEL: Uuid = 0x875fc41d_4980_434c_a653_fd4a4d4410c4;
pub const CHAR_STORAGE_INFORMATION: Uuid = 0xa0c10148_8865_4470_9631_8f36d79a41a5;
pub const CHAR_FILE_TRANSFER_LIST: Uuid = 0xd9ae1c06_447d_4dea_8b7d_fc8b19c2cdae;
pub const CHAR_POWER_OFF_DURING_TRANSFER: Uuid = 0xbd6725fc_5d16_496a_a48a_f784594c8ecb;
pub const CHAR_CAMERA_SERVICE_NOTIFICATION: Uuid = 0xfaa0aeaf_1654_4842_a139_f4e1c1e722ac;
// WLAN Control Command service
pub const CHAR_NETWORK_TYPE: Uuid = 0x9111cdd0_9f01_45c4_a2d4_e09e8fb0424d;
pub const CHAR_SSID: Uuid = 0x90638e5a_e77d_409d_b550_78f7e1ca5ab4;
pub const CHAR_PASSPHRASE: Uuid = 0x0f38279c_fe9e_461b_8596_81287e8c9a81;
pub const CHAR_CHANNEL: Uuid = 0x51de6ebc_0f22_4357_87e4_b1fa1d385ab8;
// Bluetooth Control Command service
pub const CHAR_BLE_ENABLE_CONDITION: Uuid = 0xd8676c92_dc4e_4d9e_acce_b9e251ddcc0c;
pub const CHAR_PAIRED_DEVICE_NAME: Uuid = 0xfe3a32f8_a189_42de_a391_bc81ae4daa76;
// Characteristics that are named, reported and never used
pub const CHAR_MANUFACTURER_NAME: Uuid = 0xf5666a48_6a74_40ae_a817_3c9b3efb59a6;
pub const CHAR_OPERATION_MODE_LIST: Uuid = 0x430b80a3_cc2e_4ec2_aacd_08610281ff38;
pub const CHAR_DATE_TIME: Uuid = 0xfa46bbdd_8a8f_4796_8cf3_aa58949b130a;
pub const CHAR_GEO_TAG: Uuid = 0xa36afdcf_6b67_4046_9be7_28fb67dbc071;
pub const CHAR_GPS_INFORMATION: Uuid = 0x28f59d60_8b8e_4fcd_a81f_61bdb46595a9;
pub const CHAR_OPERATION_REQUEST: Uuid = 0x559644b8_e0bc_4011_929b_5cf9199851e7;
pub const CHAR_CAPTURE_STATUS: Uuid = 0xb5589c08_b5fd_46f5_be7d_ab1b8c074caa;
pub const CHAR_CAPTURE_MODE: Uuid = 0x78009238_ac3d_4370_9b6f_c9ce2f4e3ca8;
pub const CHAR_SHOT_COUNT: Uuid = 0x12d262ba_d8bf_44b0_8e85_c414a40230a9;
pub const CHAR_SELF_TIMER: Uuid = 0x009a8e70_b306_4451_b943_7f54392eb971;
pub const CHAR_AUTO_FOCUS_STATUS: Uuid = 0xcdfc734e_ea21_427d_a69f_c1a0f7f1e9a3;
pub const CHAR_FOCUS_MODE: Uuid = 0x89458f80_50a1_42c1_b031_1bc6082179c0;
pub const CHAR_FOCUS_SETTING_LIST: Uuid = 0x31b28dab_bd3c_4c27_aa08_f379bf737c1e;
pub const CHAR_SHOOTING_MODE: Uuid = 0xa3c51525_de3e_4777_a1c2_699e28736fcf;
pub const CHAR_SHOOTING_MODE_LIST: Uuid = 0xf662dcd8_ac6e_4e02_a4b2_ce92cd44c7c3;
pub const CHAR_DRIVE_MODE: Uuid = 0xb29e6de3_1aec_48c1_9d05_02cea57ce664;
pub const CHAR_DRIVE_MODE_LIST: Uuid = 0xf4b6c78c_7873_43f0_9748_f4406185224d;
pub const CHAR_METERING_MODE: Uuid = 0xed58217e_1839_43b2_bcd7_dc48c36ac0de;
pub const CHAR_SHUTTER_SPEED: Uuid = 0xd3ce2aed_10fa_4648_833d_cd74c6f35905;
pub const CHAR_SHUTTER_SPEED_LIST: Uuid = 0xb355330d_4adc_4434_a222_7b91404b4788;
pub const CHAR_APERTURE: Uuid = 0x3911f22d_9771_479d_b2b9_f729d9baf9dc;
pub const CHAR_APERTURE_LIST: Uuid = 0x4866f4a9_2c83_457b_b393_b9535e1447e5;
pub const CHAR_ISO_SENSITIVITY: Uuid = 0x206bd02c_78b2_42c4_820a_cf30e0963909;
pub const CHAR_ISO_SENSITIVITY_LIST: Uuid = 0x9c83df56_fd93_4639_8ca7_857bb7b3ca3d;
pub const CHAR_EXPOSURE_COMPENSATION: Uuid = 0x30bcc8eb_725d_4048_a832_e76ae26a57e9;
pub const CHAR_EXPOSURE_COMPENSATION_LIST: Uuid = 0x01879798_28ee_4d97_92c9_fd249c88bbcc;
pub const CHAR_WHITE_BALANCE: Uuid = 0x2361f4ff_2c7e_4fc5_876b_f9b0efbc06fd;
pub const CHAR_WHITE_BALANCE_LIST: Uuid = 0xfb673486_2a76_41b8_88f7_f88552fe5745;
pub const CHAR_FILE_TYPE: Uuid = 0x95bfa8ca_4680_424d_b27c_aac20d86e48b;
pub const CHAR_FILE_TYPE_LIST: Uuid = 0xf3bfb222_c62b_4aaa_bb61_ef6486626cc8;
pub const CHAR_JPEG_SIZE: Uuid = 0x9838bb04_4abb_4c12_ae22_626d02e3704b;
pub const CHAR_MOVIE_CONFIGURATION: Uuid = 0x404f6626_1294_407f_ab3d_ddc6b805b6bc;
pub const CHAR_SHOOTING_SERVICE_NOTIFICATION: Uuid = 0x671466a5_5535_412e_ac4f_8b2f06af2237;
pub const CHAR_HIGH_FREQUENCY_SHOOTING_SERVICE_NOTIFICATION: Uuid = 0x2ac97991_a78b_4cd4_9ae8_6e030e1d9edb;

/// How a characteristic's bytes are laid out.
///
/// Taken from the documentation where it says, and from the bytes a real
/// GR IIIx sent where it does not. Where the two conflict the camera wins; where
/// neither is clear the value stays [`Encoding::Opaque`] rather than being
/// guessed at.
#[derive(Debug, Clone, Copy, PartialEq, Eq, Structural)]
pub enum Encoding {
    /// NUL-padded UTF-8 in a fixed-size buffer.
    Utf8,
    Sint8,
    Uint8,
    /// Little-endian, four bytes.
    Sint32,
    /// A leading count, that many elements, then zero padding to a fixed size.
    ///
    /// This is how the camera reports the values it will *accept* for a
    /// setting: the domain, at runtime, from the device itself.
    List(ListElement),
    /// Decoded by a dedicated function in this module.
    Structured,
    /// Documented as a structure nobody has decoded against real bytes yet.
    /// Reported as hex and nothing more; inventing fields would be worse.
    Opaque,
}

#[derive(Debug, Clone, Copy, PartialEq, Eq, Structural)]
pub enum ListElement {
    Sint8,
    Sint32,
}

/// A characteristic's value, decoded as far as we honestly can.
#[derive(Debug, PartialEq)]
pub enum Decoded {
    Text(String),
    Number(i64),
    List(Vec<i64>),
}

/// A decoded value, mathematically.
#[verifier::ext_equal]
pub enum DecodedView {
    Text(Seq<char>),
    Number(i64),
    List(Seq<i64>),
}

impl View for Decoded {
    type V = DecodedView;

    open spec fn view(&self) -> DecodedView {
        match *self {
            Decoded::Text(text) => DecodedView::Text(text@),
            Decoded::Number(number) => DecodedView::Number(number),
            Decoded::List(numbers) => DecodedView::List(numbers@),
        }
    }
}

impl DeepView for Decoded {
    type V = DecodedView;

    open spec fn deep_view(&self) -> DecodedView {
        self@
    }
}

/// A byte, read as a signed number.
pub open spec fn sint8(byte: u8) -> i8 {
    if byte < 128 {
        byte as i8
    } else {
        (byte - 256) as i8
    }
}

/// The byte that reads back as `value`.
pub open spec fn sint8_byte(value: i8) -> u8 {
    if value >= 0 {
        value as u8
    } else {
        (value + 256) as u8
    }
}

/// Two bytes, least significant first.
pub open spec fn uint16(low: u8, high: u8) -> u16 {
    (low + 256 * high) as u16
}

/// Four bytes, least significant first, read as a signed number.
pub open spec fn sint32(raw: Seq<u8>, at: int) -> i32 {
    (raw[at] + 256 * raw[at + 1] + 65536 * raw[at + 2] + 16777216 * sint8(raw[at + 3])) as i32
}

/// How many bytes one element of a list takes.
pub open spec fn element_width(element: ListElement) -> int {
    match element {
        ListElement::Sint8 => 1,
        ListElement::Sint32 => 4,
    }
}

/// How many elements a list has: as many as it claims, and no more than there
/// are whole elements behind the count.
pub open spec fn list_length(raw: Seq<u8>, element: ListElement) -> int {
    let whole = (raw.len() - 1) / element_width(element);
    if raw[0] <= whole {
        raw[0] as int
    } else {
        whole
    }
}

/// The elements of a `count`-prefixed list.
pub open spec fn list_values(raw: Seq<u8>, element: ListElement) -> Seq<i64> {
    if raw.len() == 0 {
        seq![]
    } else {
        Seq::new(
            list_length(raw, element) as nat,
            |i: int|
                match element {
                    ListElement::Sint8 => sint8(raw[1 + i]) as i64,
                    ListElement::Sint32 => sint32(raw, 1 + 4 * i) as i64,
                },
        )
    }
}

fn read_sint8(byte: u8) -> (value: i8)
    ensures
        value == sint8(byte),
{
    if byte < 128 {
        byte as i8
    } else {
        (byte as i16 - 256) as i8
    }
}

fn read_sint32(raw: &[u8], at: usize) -> (value: i32)
    requires
        at + 4 <= raw@.len(),
    ensures
        value == sint32(raw@, at as int),
{
    assert(raw.len() == raw@.len());
    let high: i64 = read_sint8(raw[at + 3]) as i64;
    (raw[at] as i64 + 256 * raw[at + 1] as i64 + 65536 * raw[at + 2] as i64 + 16777216 * high)
        as i32
}

/// Decode a `count`-prefixed list.
///
/// A count larger than the bytes behind it yields the elements that are
/// actually there. That is not defensive programming for its own sake: a real
/// camera sent `focus_setting_list` claiming ten entries with nine bytes
/// following, and `exposure_compensation_list` claiming none at all.
pub fn decode_list(raw: &[u8], element: ListElement) -> (values: Vec<i64>)
    ensures
        values@ == list_values(raw@, element),
{
    let mut values: Vec<i64> = Vec::new();
    if raw.len() == 0 {
        return values;
    }
    let width: usize = match element {
        ListElement::Sint8 => 1,
        ListElement::Sint32 => 4,
    };
    let whole: usize = (raw.len() - 1) / width;
    let count: usize = if (raw[0] as usize) <= whole {
        raw[0] as usize
    } else {
        whole
    };
    assert(count == list_length(raw@, element));
    assert(whole * width <= raw@.len() - 1) by (nonlinear_arith)
        requires
            whole == (raw@.len() - 1) / width as int,
            width >= 1,
            raw@.len() >= 1,
    ;
    let mut i: usize = 0;
    while i < count
        invariant
            i <= count <= whole,
            raw@.len() > 0,
            count == list_length(raw@, element),
            width == element_width(element),
            whole * width <= raw@.len() - 1,
            values@ == list_values(raw@, element).take(i as int),
        decreases count - i,
    {
        let value: i64 = match element {
            ListElement::Sint8 => {
                assert(1 + i < raw@.len());
                read_sint8(raw[1 + i]) as i64
            },
            ListElement::Sint32 => {
                assert(1 + 4 * i + 4 <= raw@.len());
                read_sint32(raw, 1 + 4 * i) as i64
            },
        };
        values.push(value);
        i += 1;
        assert(values@ == list_values(raw@, element).take(i as int));
    }
    values
}

/// The text of seven bytes of date and time.
pub open spec fn date_time_text(raw: Seq<u8>) -> Seq<char> {
    text::left_padded(text::decimal(uint16(raw[0], raw[1]) as nat), '0', 4) + "-"@ + two_digits(
        raw[2],
    ) + "-"@ + two_digits(raw[3]) + " "@ + two_digits(raw[4]) + ":"@ + two_digits(raw[5]) + ":"@
        + two_digits(raw[6])
}

/// A number in at least two digits.
pub open spec fn two_digits(n: u8) -> Seq<char> {
    text::left_padded(text::decimal(n as nat), '0', 2)
}

fn two_digit_text(n: u8) -> (text: String)
    ensures
        text@ == two_digits(n),
{
    text::pad_left(text::decimal_text(n as u64).as_str(), '0', 2)
}

/// `Date Time`, service 4b445988…, characteristic fa46bbdd….
///
/// Seven bytes: year as little-endian u16, then month, day, hour, minute,
/// second. Verified against a camera whose clock was known to be right.
pub fn decode_date_time(raw: &[u8]) -> (text: Option<String>)
    ensures
        text.deep_view() == if raw@.len() < 7 {
            None
        } else {
            Some(date_time_text(raw@))
        },
{
    if raw.len() < 7 {
        return None;
    }
    let year: u16 = raw[0] as u16 + 256 * raw[1] as u16;
    let mut text = text::pad_left(text::decimal_text(year as u64).as_str(), '0', 4);
    text.append("-");
    text.append(two_digit_text(raw[2]).as_str());
    text.append("-");
    text.append(two_digit_text(raw[3]).as_str());
    text.append(" ");
    text.append(two_digit_text(raw[4]).as_str());
    text.append(":");
    text.append(two_digit_text(raw[5]).as_str());
    text.append(":");
    text.append(two_digit_text(raw[6]).as_str());
    Some(text)
}

/// What a value decodes to, by its encoding.
pub open spec fn decoded(encoding: Encoding, raw: Seq<u8>) -> Option<DecodedView> {
    match encoding {
        Encoding::Utf8 => Some(DecodedView::Text(decoded_text(raw))),
        Encoding::Sint8 => if raw.len() == 0 {
            None
        } else {
            Some(DecodedView::Number(sint8(raw[0]) as i64))
        },
        Encoding::Uint8 => if raw.len() == 0 {
            None
        } else {
            Some(DecodedView::Number(raw[0] as i64))
        },
        Encoding::Sint32 => if raw.len() < 4 {
            None
        } else {
            Some(DecodedView::Number(sint32(raw, 0) as i64))
        },
        Encoding::List(element) => Some(DecodedView::List(list_values(raw, element))),
        Encoding::Structured => None,
        Encoding::Opaque => None,
    }
}

/// Decode a value according to its encoding, or `None` when we cannot.
///
/// Structured values have their own accessors with their own types; squeezing
/// them through one enum would lose more than it gained.
pub fn decode_value(encoding: Encoding, raw: &[u8]) -> (value: Option<Decoded>)
    ensures
        value.deep_view() == decoded(encoding, raw@),
{
    match encoding {
        Encoding::Utf8 => Some(Decoded::Text(decode_utf8(raw))),
        Encoding::Sint8 => if raw.len() == 0 {
            None
        } else {
            Some(Decoded::Number(read_sint8(raw[0]) as i64))
        },
        Encoding::Uint8 => if raw.len() == 0 {
            None
        } else {
            Some(Decoded::Number(raw[0] as i64))
        },
        Encoding::Sint32 => if raw.len() < 4 {
            None
        } else {
            Some(Decoded::Number(read_sint32(raw, 0) as i64))
        },
        Encoding::List(element) => Some(Decoded::List(decode_list(raw, element))),
        Encoding::Structured => None,
        Encoding::Opaque => None,
    }
}

/// One entry in the camera's documented GATT profile.
///
/// Name, UUID and owning service in one place, so that a characteristic cannot
/// exist without its service.
#[derive(Clone, Copy)]
pub struct Characteristic {
    pub name: &'static str,
    pub uuid: Uuid,
    /// A GATT client reaches a characteristic through its service, so anything
    /// that rebuilds the camera's table (the emulator, `doctor`'s report)
    /// needs this and cannot recover it from the characteristic UUID alone.
    pub service: Uuid,
    pub encoding: Encoding,
}

/// An entry of the profile, mathematically.
pub struct CharacteristicView {
    pub name: Seq<char>,
    pub uuid: Uuid,
    pub service: Uuid,
    pub encoding: Encoding,
}

impl View for Characteristic {
    type V = CharacteristicView;

    open spec fn view(&self) -> CharacteristicView {
        CharacteristicView {
            name: self.name@,
            uuid: self.uuid,
            service: self.service,
            encoding: self.encoding,
        }
    }
}

impl DeepView for Characteristic {
    type V = CharacteristicView;

    open spec fn deep_view(&self) -> CharacteristicView {
        self@
    }
}

pub open spec fn entry(
    name: Seq<char>,
    uuid: Uuid,
    service: Uuid,
    encoding: Encoding,
) -> CharacteristicView {
    CharacteristicView { name, uuid, service, encoding }
}

/// Every characteristic the reverse-engineered documentation describes, which
/// is every one a real GR IIIx exposes bar the standard Bluetooth SIG entries
/// (`0000xxxx-0000-1000-8000-00805f9b34fb`: GAP, GATT, Device Information).
///
/// `gr3sync doctor` reads the lot in one pass and reports which of them a
/// camera actually has. Being in this table means "we know what it is", not
/// "gr3sync uses it": most of these are shooting parameters gr3sync never
/// touches.
#[verifier::opaque]
pub open spec fn profile() -> Seq<CharacteristicView> {
    seq![
        entry("model_number"@, CHAR_MODEL_NUMBER, SERVICE_CAMERA_INFORMATION, Encoding::Utf8),
        entry("firmware_revision"@, CHAR_FIRMWARE_REVISION, SERVICE_CAMERA_INFORMATION, Encoding::Utf8),
        entry("serial_number"@, CHAR_SERIAL_NUMBER, SERVICE_CAMERA_INFORMATION, Encoding::Utf8),
        entry("manufacturer_name"@, CHAR_MANUFACTURER_NAME, SERVICE_CAMERA_INFORMATION, Encoding::Utf8),
        entry("bluetooth_device_name"@, CHAR_BLUETOOTH_DEVICE_NAME, SERVICE_BLUETOOTH_INFORMATION, Encoding::Utf8),
        entry("camera_power"@, CHAR_CAMERA_POWER, SERVICE_CAMERA, Encoding::Sint8),
        entry("operation_mode"@, CHAR_OPERATION_MODE, SERVICE_CAMERA, Encoding::Sint8),
        entry("operation_mode_list"@, CHAR_OPERATION_MODE_LIST, SERVICE_CAMERA, Encoding::List(ListElement::Sint8)),
        entry("battery_level"@, CHAR_BATTERY_LEVEL, SERVICE_CAMERA, Encoding::Structured),
        entry("storage_information"@, CHAR_STORAGE_INFORMATION, SERVICE_CAMERA, Encoding::Structured),
        entry("file_transfer_list"@, CHAR_FILE_TRANSFER_LIST, SERVICE_CAMERA, Encoding::Structured),
        entry("power_off_during_file_transfer"@, CHAR_POWER_OFF_DURING_TRANSFER, SERVICE_CAMERA, Encoding::Opaque),
        entry("camera_service_notification"@, CHAR_CAMERA_SERVICE_NOTIFICATION, SERVICE_CAMERA, Encoding::Opaque),
        entry("date_time"@, CHAR_DATE_TIME, SERVICE_CAMERA, Encoding::Structured),
        entry("geo_tag"@, CHAR_GEO_TAG, SERVICE_CAMERA, Encoding::Sint8),
        entry("network_type"@, CHAR_NETWORK_TYPE, SERVICE_WLAN_CONTROL, Encoding::Sint8),
        entry("ssid"@, CHAR_SSID, SERVICE_WLAN_CONTROL, Encoding::Utf8),
        entry("passphrase"@, CHAR_PASSPHRASE, SERVICE_WLAN_CONTROL, Encoding::Utf8),
        entry("channel"@, CHAR_CHANNEL, SERVICE_WLAN_CONTROL, Encoding::Sint8),
        entry("ble_enable_condition"@, CHAR_BLE_ENABLE_CONDITION, SERVICE_BLUETOOTH_CONTROL, Encoding::Sint8),
        entry("paired_device_name"@, CHAR_PAIRED_DEVICE_NAME, SERVICE_BLUETOOTH_CONTROL, Encoding::Utf8),
        entry("gps_information"@, CHAR_GPS_INFORMATION, SERVICE_GPS_CONTROL, Encoding::Opaque),
        entry("operation_request"@, CHAR_OPERATION_REQUEST, SERVICE_SHOOTING_CONTROL, Encoding::Opaque),
        entry("capture_status"@, CHAR_CAPTURE_STATUS, SERVICE_SHOOTING_CONTROL, Encoding::Opaque),
        entry("capture_mode"@, CHAR_CAPTURE_MODE, SERVICE_SHOOTING_CONTROL, Encoding::Sint8),
        entry("shot_count"@, CHAR_SHOT_COUNT, SERVICE_SHOOTING_CONTROL, Encoding::Opaque),
        entry("self_timer"@, CHAR_SELF_TIMER, SERVICE_SHOOTING_CONTROL, Encoding::Opaque),
        entry("auto_focus_status"@, CHAR_AUTO_FOCUS_STATUS, SERVICE_SHOOTING_CONTROL, Encoding::Opaque),
        entry("focus_mode"@, CHAR_FOCUS_MODE, SERVICE_SHOOTING_CONTROL, Encoding::Opaque),
        entry("focus_setting_list"@, CHAR_FOCUS_SETTING_LIST, SERVICE_SHOOTING_CONTROL, Encoding::List(ListElement::Sint8)),
        entry("shooting_mode"@, CHAR_SHOOTING_MODE, SERVICE_SHOOTING_CONTROL, Encoding::Opaque),
        entry("shooting_mode_list"@, CHAR_SHOOTING_MODE_LIST, SERVICE_SHOOTING_CONTROL, Encoding::List(ListElement::Sint8)),
        entry("drive_mode"@, CHAR_DRIVE_MODE, SERVICE_SHOOTING_CONTROL, Encoding::Uint8),
        entry("drive_mode_list"@, CHAR_DRIVE_MODE_LIST, SERVICE_SHOOTING_CONTROL, Encoding::List(ListElement::Sint8)),
        entry("metering_mode"@, CHAR_METERING_MODE, SERVICE_SHOOTING_CONTROL, Encoding::Sint8),
        entry("shutter_speed"@, CHAR_SHUTTER_SPEED, SERVICE_SHOOTING_CONTROL, Encoding::Sint8),
        entry("shutter_speed_list"@, CHAR_SHUTTER_SPEED_LIST, SERVICE_SHOOTING_CONTROL, Encoding::List(ListElement::Sint8)),
        entry("aperture"@, CHAR_APERTURE, SERVICE_SHOOTING_CONTROL, Encoding::Sint8),
        entry("aperture_list"@, CHAR_APERTURE_LIST, SERVICE_SHOOTING_CONTROL, Encoding::List(ListElement::Sint8)),
        entry("iso_sensitivity"@, CHAR_ISO_SENSITIVITY, SERVICE_SHOOTING_CONTROL, Encoding::Sint32),
        entry("iso_sensitivity_list"@, CHAR_ISO_SENSITIVITY_LIST, SERVICE_SHOOTING_CONTROL, Encoding::List(ListElement::Sint32)),
        entry("exposure_compensation"@, CHAR_EXPOSURE_COMPENSATION, SERVICE_SHOOTING_CONTROL, Encoding::Sint8),
        entry("exposure_compensation_list"@, CHAR_EXPOSURE_COMPENSATION_LIST, SERVICE_SHOOTING_CONTROL, Encoding::List(ListElement::Sint8)),
        entry("white_balance"@, CHAR_WHITE_BALANCE, SERVICE_SHOOTING_CONTROL, Encoding::Sint8),
        entry("white_balance_list"@, CHAR_WHITE_BALANCE_LIST, SERVICE_SHOOTING_CONTROL, Encoding::List(ListElement::Sint8)),
        entry("file_type"@, CHAR_FILE_TYPE, SERVICE_SHOOTING_CONTROL, Encoding::Uint8),
        entry("file_type_list"@, CHAR_FILE_TYPE_LIST, SERVICE_SHOOTING_CONTROL, Encoding::List(ListElement::Sint8)),
        entry("jpeg_size"@, CHAR_JPEG_SIZE, SERVICE_SHOOTING_CONTROL, Encoding::Sint8),
        entry("movie_configuration"@, CHAR_MOVIE_CONFIGURATION, SERVICE_SHOOTING_CONTROL, Encoding::Sint8),
        entry("shooting_service_notification"@, CHAR_SHOOTING_SERVICE_NOTIFICATION, SERVICE_SHOOTING_CONTROL, Encoding::Opaque),
        entry("high_frequency_shooting_service_notification"@, CHAR_HIGH_FREQUENCY_SHOOTING_SERVICE_NOTIFICATION, SERVICE_SHOOTING_CONTROL, Encoding::Opaque),
    ]
}

fn c(name: &'static str, uuid: Uuid, service: Uuid, encoding: Encoding) -> (entry: Characteristic)
    ensures
        entry@ == self::entry(name@, uuid, service, encoding),
{
    Characteristic { name, uuid, service, encoding }
}

/// The camera's documented GATT profile.
pub fn known_characteristics() -> (table: Vec<Characteristic>)
    ensures
        table.deep_view() == profile(),
{
    let mut table: Vec<Characteristic> = Vec::new();
    table.push(c("model_number", CHAR_MODEL_NUMBER, SERVICE_CAMERA_INFORMATION, Encoding::Utf8));
    table.push(c("firmware_revision", CHAR_FIRMWARE_REVISION, SERVICE_CAMERA_INFORMATION, Encoding::Utf8));
    table.push(c("serial_number", CHAR_SERIAL_NUMBER, SERVICE_CAMERA_INFORMATION, Encoding::Utf8));
    table.push(c("manufacturer_name", CHAR_MANUFACTURER_NAME, SERVICE_CAMERA_INFORMATION, Encoding::Utf8));
    table.push(c("bluetooth_device_name", CHAR_BLUETOOTH_DEVICE_NAME, SERVICE_BLUETOOTH_INFORMATION, Encoding::Utf8));
    table.push(c("camera_power", CHAR_CAMERA_POWER, SERVICE_CAMERA, Encoding::Sint8));
    table.push(c("operation_mode", CHAR_OPERATION_MODE, SERVICE_CAMERA, Encoding::Sint8));
    table.push(c("operation_mode_list", CHAR_OPERATION_MODE_LIST, SERVICE_CAMERA, Encoding::List(ListElement::Sint8)));
    table.push(c("battery_level", CHAR_BATTERY_LEVEL, SERVICE_CAMERA, Encoding::Structured));
    table.push(c("storage_information", CHAR_STORAGE_INFORMATION, SERVICE_CAMERA, Encoding::Structured));
    table.push(c("file_transfer_list", CHAR_FILE_TRANSFER_LIST, SERVICE_CAMERA, Encoding::Structured));
    table.push(c("power_off_during_file_transfer", CHAR_POWER_OFF_DURING_TRANSFER, SERVICE_CAMERA, Encoding::Opaque));
    table.push(c("camera_service_notification", CHAR_CAMERA_SERVICE_NOTIFICATION, SERVICE_CAMERA, Encoding::Opaque));
    table.push(c("date_time", CHAR_DATE_TIME, SERVICE_CAMERA, Encoding::Structured));
    table.push(c("geo_tag", CHAR_GEO_TAG, SERVICE_CAMERA, Encoding::Sint8));
    table.push(c("network_type", CHAR_NETWORK_TYPE, SERVICE_WLAN_CONTROL, Encoding::Sint8));
    table.push(c("ssid", CHAR_SSID, SERVICE_WLAN_CONTROL, Encoding::Utf8));
    table.push(c("passphrase", CHAR_PASSPHRASE, SERVICE_WLAN_CONTROL, Encoding::Utf8));
    table.push(c("channel", CHAR_CHANNEL, SERVICE_WLAN_CONTROL, Encoding::Sint8));
    table.push(c("ble_enable_condition", CHAR_BLE_ENABLE_CONDITION, SERVICE_BLUETOOTH_CONTROL, Encoding::Sint8));
    table.push(c("paired_device_name", CHAR_PAIRED_DEVICE_NAME, SERVICE_BLUETOOTH_CONTROL, Encoding::Utf8));
    table.push(c("gps_information", CHAR_GPS_INFORMATION, SERVICE_GPS_CONTROL, Encoding::Opaque));
    table.push(c("operation_request", CHAR_OPERATION_REQUEST, SERVICE_SHOOTING_CONTROL, Encoding::Opaque));
    table.push(c("capture_status", CHAR_CAPTURE_STATUS, SERVICE_SHOOTING_CONTROL, Encoding::Opaque));
    table.push(c("capture_mode", CHAR_CAPTURE_MODE, SERVICE_SHOOTING_CONTROL, Encoding::Sint8));
    table.push(c("shot_count", CHAR_SHOT_COUNT, SERVICE_SHOOTING_CONTROL, Encoding::Opaque));
    table.push(c("self_timer", CHAR_SELF_TIMER, SERVICE_SHOOTING_CONTROL, Encoding::Opaque));
    table.push(c("auto_focus_status", CHAR_AUTO_FOCUS_STATUS, SERVICE_SHOOTING_CONTROL, Encoding::Opaque));
    table.push(c("focus_mode", CHAR_FOCUS_MODE, SERVICE_SHOOTING_CONTROL, Encoding::Opaque));
    table.push(c("focus_setting_list", CHAR_FOCUS_SETTING_LIST, SERVICE_SHOOTING_CONTROL, Encoding::List(ListElement::Sint8)));
    table.push(c("shooting_mode", CHAR_SHOOTING_MODE, SERVICE_SHOOTING_CONTROL, Encoding::Opaque));
    table.push(c("shooting_mode_list", CHAR_SHOOTING_MODE_LIST, SERVICE_SHOOTING_CONTROL, Encoding::List(ListElement::Sint8)));
    table.push(c("drive_mode", CHAR_DRIVE_MODE, SERVICE_SHOOTING_CONTROL, Encoding::Uint8));
    table.push(c("drive_mode_list", CHAR_DRIVE_MODE_LIST, SERVICE_SHOOTING_CONTROL, Encoding::List(ListElement::Sint8)));
    table.push(c("metering_mode", CHAR_METERING_MODE, SERVICE_SHOOTING_CONTROL, Encoding::Sint8));
    table.push(c("shutter_speed", CHAR_SHUTTER_SPEED, SERVICE_SHOOTING_CONTROL, Encoding::Sint8));
    table.push(c("shutter_speed_list", CHAR_SHUTTER_SPEED_LIST, SERVICE_SHOOTING_CONTROL, Encoding::List(ListElement::Sint8)));
    table.push(c("aperture", CHAR_APERTURE, SERVICE_SHOOTING_CONTROL, Encoding::Sint8));
    table.push(c("aperture_list", CHAR_APERTURE_LIST, SERVICE_SHOOTING_CONTROL, Encoding::List(ListElement::Sint8)));
    table.push(c("iso_sensitivity", CHAR_ISO_SENSITIVITY, SERVICE_SHOOTING_CONTROL, Encoding::Sint32));
    table.push(c("iso_sensitivity_list", CHAR_ISO_SENSITIVITY_LIST, SERVICE_SHOOTING_CONTROL, Encoding::List(ListElement::Sint32)));
    table.push(c("exposure_compensation", CHAR_EXPOSURE_COMPENSATION, SERVICE_SHOOTING_CONTROL, Encoding::Sint8));
    table.push(c("exposure_compensation_list", CHAR_EXPOSURE_COMPENSATION_LIST, SERVICE_SHOOTING_CONTROL, Encoding::List(ListElement::Sint8)));
    table.push(c("white_balance", CHAR_WHITE_BALANCE, SERVICE_SHOOTING_CONTROL, Encoding::Sint8));
    table.push(c("white_balance_list", CHAR_WHITE_BALANCE_LIST, SERVICE_SHOOTING_CONTROL, Encoding::List(ListElement::Sint8)));
    table.push(c("file_type", CHAR_FILE_TYPE, SERVICE_SHOOTING_CONTROL, Encoding::Uint8));
    table.push(c("file_type_list", CHAR_FILE_TYPE_LIST, SERVICE_SHOOTING_CONTROL, Encoding::List(ListElement::Sint8)));
    table.push(c("jpeg_size", CHAR_JPEG_SIZE, SERVICE_SHOOTING_CONTROL, Encoding::Sint8));
    table.push(c("movie_configuration", CHAR_MOVIE_CONFIGURATION, SERVICE_SHOOTING_CONTROL, Encoding::Sint8));
    table.push(c("shooting_service_notification", CHAR_SHOOTING_SERVICE_NOTIFICATION, SERVICE_SHOOTING_CONTROL, Encoding::Opaque));
    table.push(c("high_frequency_shooting_service_notification", CHAR_HIGH_FREQUENCY_SHOOTING_SERVICE_NOTIFICATION, SERVICE_SHOOTING_CONTROL, Encoding::Opaque));
    proof {
        reveal(profile);
    }
    assert(table.deep_view() == profile());
    table
}

/// The first entry named `name`, from entry `from` on.
pub open spec fn named_from(
    table: Seq<CharacteristicView>,
    name: Seq<char>,
    from: nat,
) -> Option<CharacteristicView>
    decreases table.len() - from,
{
    if from >= table.len() {
        None
    } else if table[from as int].name == name {
        Some(table[from as int])
    } else {
        named_from(table, name, from + 1)
    }
}

/// The documented characteristic of a name.
pub open spec fn documented(name: Seq<char>) -> Option<CharacteristicView> {
    named_from(profile(), name, 0)
}

/// Look up a documented characteristic by name.
pub fn characteristic_named(name: &str) -> (found: Option<Characteristic>)
    ensures
        found.deep_view() == documented(name@),
{
    let table = known_characteristics();
    let mut i: usize = 0;
    while i < table.len()
        invariant
            i <= table@.len(),
            table.deep_view() == profile(),
            documented(name@) == named_from(profile(), name@, i as nat),
        decreases table@.len() - i,
    {
        assert(profile()[i as int] == table@[i as int]@);
        if text::same(table[i].name, name) {
            return Some(table[i]);
        }
        i += 1;
    }
    None
}

/// The service of the first entry with a UUID, from entry `from` on.
pub open spec fn service_from(table: Seq<CharacteristicView>, uuid: Uuid, from: nat) -> Option<Uuid>
    decreases table.len() - from,
{
    if from >= table.len() {
        None
    } else if table[from as int].uuid == uuid {
        Some(table[from as int].service)
    } else {
        service_from(table, uuid, from + 1)
    }
}

/// The service that a characteristic is documented to belong to.
pub open spec fn documented_service(uuid: Uuid) -> Option<Uuid> {
    service_from(profile(), uuid, 0)
}

/// Which service a known characteristic belongs to.
pub fn service_of(characteristic: Uuid) -> (service: Option<Uuid>)
    ensures
        service == documented_service(characteristic),
{
    let table = known_characteristics();
    let mut i: usize = 0;
    while i < table.len()
        invariant
            i <= table@.len(),
            table.deep_view() == profile(),
            documented_service(characteristic) == service_from(
                profile(),
                characteristic,
                i as nat,
            ),
        decreases table@.len() - i,
    {
        assert(profile()[i as int] == table@[i as int]@);
        if table[i].uuid == characteristic {
            return Some(table[i].service);
        }
        i += 1;
    }
    None
}

/// `Camera Power`, service 4b445988…, characteristic b58ce84c….
#[derive(Debug, Clone, Copy, PartialEq, Eq, Structural)]
pub enum CameraPower {
    Off,
    On,
    Sleep,
}

impl DeepView for CameraPower {
    type V = CameraPower;

    open spec fn deep_view(&self) -> CameraPower {
        *self
    }
}

impl CameraPower {
    /// The number the camera uses.
    pub open spec fn code(self) -> i8 {
        match self {
            CameraPower::Off => 0,
            CameraPower::On => 1,
            CameraPower::Sleep => 2,
        }
    }

    pub fn as_i8(self) -> (value: i8)
        ensures
            value == self.code(),
    {
        match self {
            CameraPower::Off => 0,
            CameraPower::On => 1,
            CameraPower::Sleep => 2,
        }
    }

    /// What a number stands for; none but the documented ones do.
    pub open spec fn read_back(value: i8) -> ResultView<CameraPower> {
        if value == 0 {
            Ok(CameraPower::Off)
        } else if value == 1 {
            Ok(CameraPower::On)
        } else if value == 2 {
            Ok(CameraPower::Sleep)
        } else {
            Err(
                ErrorView::Ble(
                    "CameraPower has no value "@ + text::signed_decimal(value as int),
                ),
            )
        }
    }

    /// Decode, refusing values the camera is not documented to report.
    /// An unknown value means our model of the camera is wrong, and silently
    /// coercing it would hide that.
    pub fn from_i8(value: i8) -> (decoded: Result<Self>)
        ensures
            error::seen(decoded) == Self::read_back(value),
    {
        if value == 0 {
            Ok(CameraPower::Off)
        } else if value == 1 {
            Ok(CameraPower::On)
        } else if value == 2 {
            Ok(CameraPower::Sleep)
        } else {
            let mut detail = "CameraPower has no value ".to_owned();
            detail.append(text::signed_text(value as i64).as_str());
            Err(Error::Ble(detail))
        }
    }

    pub open spec fn label(self) -> Seq<char> {
        match self {
            CameraPower::Off => "Off"@,
            CameraPower::On => "On"@,
            CameraPower::Sleep => "Sleep"@,
        }
    }

    pub fn name(self) -> (name: &'static str)
        ensures
            name@ == self.label(),
    {
        match self {
            CameraPower::Off => "Off",
            CameraPower::On => "On",
            CameraPower::Sleep => "Sleep",
        }
    }
}

/// `Operation Mode`, service 4b445988…, characteristic 1452335a….
#[derive(Debug, Clone, Copy, PartialEq, Eq, Structural)]
pub enum OperationMode {
    Capture,
    Playback,
    BleStartup,
    Other,
    PowerOffTransfer,
}

impl DeepView for OperationMode {
    type V = OperationMode;

    open spec fn deep_view(&self) -> OperationMode {
        *self
    }
}

impl OperationMode {
    /// The number the camera uses.
    pub open spec fn code(self) -> i8 {
        match self {
            OperationMode::Capture => 0,
            OperationMode::Playback => 1,
            OperationMode::BleStartup => 2,
            OperationMode::Other => 3,
            OperationMode::PowerOffTransfer => 4,
        }
    }

    pub fn as_i8(self) -> (value: i8)
        ensures
            value == self.code(),
    {
        match self {
            OperationMode::Capture => 0,
            OperationMode::Playback => 1,
            OperationMode::BleStartup => 2,
            OperationMode::Other => 3,
            OperationMode::PowerOffTransfer => 4,
        }
    }

    /// What a number stands for; none but the documented ones do.
    pub open spec fn read_back(value: i8) -> ResultView<OperationMode> {
        if value == 0 {
            Ok(OperationMode::Capture)
        } else if value == 1 {
            Ok(OperationMode::Playback)
        } else if value == 2 {
            Ok(OperationMode::BleStartup)
        } else if value == 3 {
            Ok(OperationMode::Other)
        } else if value == 4 {
            Ok(OperationMode::PowerOffTransfer)
        } else {
            Err(
                ErrorView::Ble(
                    "OperationMode has no value "@ + text::signed_decimal(value as int),
                ),
            )
        }
    }

    /// Decode, refusing values the camera is not documented to report.
    /// An unknown value means our model of the camera is wrong, and silently
    /// coercing it would hide that.
    pub fn from_i8(value: i8) -> (decoded: Result<Self>)
        ensures
            error::seen(decoded) == Self::read_back(value),
    {
        if value == 0 {
            Ok(OperationMode::Capture)
        } else if value == 1 {
            Ok(OperationMode::Playback)
        } else if value == 2 {
            Ok(OperationMode::BleStartup)
        } else if value == 3 {
            Ok(OperationMode::Other)
        } else if value == 4 {
            Ok(OperationMode::PowerOffTransfer)
        } else {
            let mut detail = "OperationMode has no value ".to_owned();
            detail.append(text::signed_text(value as i64).as_str());
            Err(Error::Ble(detail))
        }
    }

    pub open spec fn label(self) -> Seq<char> {
        match self {
            OperationMode::Capture => "Capture"@,
            OperationMode::Playback => "Playback"@,
            OperationMode::BleStartup => "BleStartup"@,
            OperationMode::Other => "Other"@,
            OperationMode::PowerOffTransfer => "PowerOffTransfer"@,
        }
    }

    pub fn name(self) -> (name: &'static str)
        ensures
            name@ == self.label(),
    {
        match self {
            OperationMode::Capture => "Capture",
            OperationMode::Playback => "Playback",
            OperationMode::BleStartup => "BleStartup",
            OperationMode::Other => "Other",
            OperationMode::PowerOffTransfer => "PowerOffTransfer",
        }
    }
}

/// `Network Type`, service f37f568f…, characteristic 9111cdd0….
///
/// Writing [`NetworkType::ApMode`] here is what raises the camera's access
/// point, the single operation that makes hands-off syncing possible.
#[derive(Debug, Clone, Copy, PartialEq, Eq, Structural)]
pub enum NetworkType {
    Off,
    ApMode,
}

impl DeepView for NetworkType {
    type V = NetworkType;

    open spec fn deep_view(&self) -> NetworkType {
        *self
    }
}

impl NetworkType {
    /// The number the camera uses.
    pub open spec fn code(self) -> i8 {
        match self {
            NetworkType::Off => 0,
            NetworkType::ApMode => 1,
        }
    }

    pub fn as_i8(self) -> (value: i8)
        ensures
            value == self.code(),
    {
        match self {
            NetworkType::Off => 0,
            NetworkType::ApMode => 1,
        }
    }

    /// What a number stands for; none but the documented ones do.
    pub open spec fn read_back(value: i8) -> ResultView<NetworkType> {
        if value == 0 {
            Ok(NetworkType::Off)
        } else if value == 1 {
            Ok(NetworkType::ApMode)
        } else {
            Err(
                ErrorView::Ble(
                    "NetworkType has no value "@ + text::signed_decimal(value as int),
                ),
            )
        }
    }

    /// Decode, refusing values the camera is not documented to report.
    /// An unknown value means our model of the camera is wrong, and silently
    /// coercing it would hide that.
    pub fn from_i8(value: i8) -> (decoded: Result<Self>)
        ensures
            error::seen(decoded) == Self::read_back(value),
    {
        if value == 0 {
            Ok(NetworkType::Off)
        } else if value == 1 {
            Ok(NetworkType::ApMode)
        } else {
            let mut detail = "NetworkType has no value ".to_owned();
            detail.append(text::signed_text(value as i64).as_str());
            Err(Error::Ble(detail))
        }
    }

    pub open spec fn label(self) -> Seq<char> {
        match self {
            NetworkType::Off => "Off"@,
            NetworkType::ApMode => "ApMode"@,
        }
    }

    pub fn name(self) -> (name: &'static str)
        ensures
            name@ == self.label(),
    {
        match self {
            NetworkType::Off => "Off",
            NetworkType::ApMode => "ApMode",
        }
    }
}

/// `BLE Enable Condition`, service 0f291746…, characteristic d8676c92….
///
/// Must be [`BleEnableCondition::OnAnytime`] for a powered-off camera to be
/// reachable at all.
#[derive(Debug, Clone, Copy, PartialEq, Eq, Structural)]
pub enum BleEnableCondition {
    Disable,
    OnAnytime,
    OnWhenPowerOn,
}

impl DeepView for BleEnableCondition {
    type V = BleEnableCondition;

    open spec fn deep_view(&self) -> BleEnableCondition {
        *self
    }
}

impl BleEnableCondition {
    /// The number the camera uses.
    pub open spec fn code(self) -> i8 {
        match self {
            BleEnableCondition::Disable => 0,
            BleEnableCondition::OnAnytime => 1,
            BleEnableCondition::OnWhenPowerOn => 2,
        }
    }

    pub fn as_i8(self) -> (value: i8)
        ensures
            value == self.code(),
    {
        match self {
            BleEnableCondition::Disable => 0,
            BleEnableCondition::OnAnytime => 1,
            BleEnableCondition::OnWhenPowerOn => 2,
        }
    }

    /// What a number stands for; none but the documented ones do.
    pub open spec fn read_back(value: i8) -> ResultView<BleEnableCondition> {
        if value == 0 {
            Ok(BleEnableCondition::Disable)
        } else if value == 1 {
            Ok(BleEnableCondition::OnAnytime)
        } else if value == 2 {
            Ok(BleEnableCondition::OnWhenPowerOn)
        } else {
            Err(
                ErrorView::Ble(
                    "BleEnableCondition has no value "@ + text::signed_decimal(value as int),
                ),
            )
        }
    }

    /// Decode, refusing values the camera is not documented to report.
    /// An unknown value means our model of the camera is wrong, and silently
    /// coercing it would hide that.
    pub fn from_i8(value: i8) -> (decoded: Result<Self>)
        ensures
            error::seen(decoded) == Self::read_back(value),
    {
        if value == 0 {
            Ok(BleEnableCondition::Disable)
        } else if value == 1 {
            Ok(BleEnableCondition::OnAnytime)
        } else if value == 2 {
            Ok(BleEnableCondition::OnWhenPowerOn)
        } else {
            let mut detail = "BleEnableCondition has no value ".to_owned();
            detail.append(text::signed_text(value as i64).as_str());
            Err(Error::Ble(detail))
        }
    }

    pub open spec fn label(self) -> Seq<char> {
        match self {
            BleEnableCondition::Disable => "Disable"@,
            BleEnableCondition::OnAnytime => "OnAnytime"@,
            BleEnableCondition::OnWhenPowerOn => "OnWhenPowerOn"@,
        }
    }

    pub fn name(self) -> (name: &'static str)
        ensures
            name@ == self.label(),
    {
        match self {
            BleEnableCondition::Disable => "Disable",
            BleEnableCondition::OnAnytime => "OnAnytime",
            BleEnableCondition::OnWhenPowerOn => "OnWhenPowerOn",
        }
    }
}

/// What the camera runs on.
#[derive(Debug, Clone, Copy, PartialEq, Eq, Structural)]
pub enum PowerSource {
    Battery,
    AcAdapter,
}

impl DeepView for PowerSource {
    type V = PowerSource;

    open spec fn deep_view(&self) -> PowerSource {
        *self
    }
}

impl PowerSource {
    /// The number the camera uses.
    pub open spec fn code(self) -> i8 {
        match self {
            PowerSource::Battery => 0,
            PowerSource::AcAdapter => 1,
        }
    }

    pub fn as_i8(self) -> (value: i8)
        ensures
            value == self.code(),
    {
        match self {
            PowerSource::Battery => 0,
            PowerSource::AcAdapter => 1,
        }
    }

    /// What a number stands for; none but the documented ones do.
    pub open spec fn read_back(value: i8) -> ResultView<PowerSource> {
        if value == 0 {
            Ok(PowerSource::Battery)
        } else if value == 1 {
            Ok(PowerSource::AcAdapter)
        } else {
            Err(
                ErrorView::Ble(
                    "PowerSource has no value "@ + text::signed_decimal(value as int),
                ),
            )
        }
    }

    /// Decode, refusing values the camera is not documented to report.
    /// An unknown value means our model of the camera is wrong, and silently
    /// coercing it would hide that.
    pub fn from_i8(value: i8) -> (decoded: Result<Self>)
        ensures
            error::seen(decoded) == Self::read_back(value),
    {
        if value == 0 {
            Ok(PowerSource::Battery)
        } else if value == 1 {
            Ok(PowerSource::AcAdapter)
        } else {
            let mut detail = "PowerSource has no value ".to_owned();
            detail.append(text::signed_text(value as i64).as_str());
            Err(Error::Ble(detail))
        }
    }

    pub open spec fn label(self) -> Seq<char> {
        match self {
            PowerSource::Battery => "Battery"@,
            PowerSource::AcAdapter => "AcAdapter"@,
        }
    }

    pub fn name(self) -> (name: &'static str)
        ensures
            name@ == self.label(),
    {
        match self {
            PowerSource::Battery => "Battery",
            PowerSource::AcAdapter => "AcAdapter",
        }
    }
}

/// Where a storage slot is.
#[derive(Debug, Clone, Copy, PartialEq, Eq, Structural)]
pub enum StorageType {
    Internal,
    SdSlot1,
    SdSlot2,
}

impl DeepView for StorageType {
    type V = StorageType;

    open spec fn deep_view(&self) -> StorageType {
        *self
    }
}

impl StorageType {
    /// The number the camera uses.
    pub open spec fn code(self) -> i8 {
        match self {
            StorageType::Internal => 0,
            StorageType::SdSlot1 => 1,
            StorageType::SdSlot2 => 2,
        }
    }

    pub fn as_i8(self) -> (value: i8)
        ensures
            value == self.code(),
    {
        match self {
            StorageType::Internal => 0,
            StorageType::SdSlot1 => 1,
            StorageType::SdSlot2 => 2,
        }
    }

    /// What a number stands for; none but the documented ones do.
    pub open spec fn read_back(value: i8) -> ResultView<StorageType> {
        if value == 0 {
            Ok(StorageType::Internal)
        } else if value == 1 {
            Ok(StorageType::SdSlot1)
        } else if value == 2 {
            Ok(StorageType::SdSlot2)
        } else {
            Err(
                ErrorView::Ble(
                    "StorageType has no value "@ + text::signed_decimal(value as int),
                ),
            )
        }
    }

    /// Decode, refusing values the camera is not documented to report.
    /// An unknown value means our model of the camera is wrong, and silently
    /// coercing it would hide that.
    pub fn from_i8(value: i8) -> (decoded: Result<Self>)
        ensures
            error::seen(decoded) == Self::read_back(value),
    {
        if value == 0 {
            Ok(StorageType::Internal)
        } else if value == 1 {
            Ok(StorageType::SdSlot1)
        } else if value == 2 {
            Ok(StorageType::SdSlot2)
        } else {
            let mut detail = "StorageType has no value ".to_owned();
            detail.append(text::signed_text(value as i64).as_str());
            Err(Error::Ble(detail))
        }
    }

    pub open spec fn label(self) -> Seq<char> {
        match self {
            StorageType::Internal => "Internal"@,
            StorageType::SdSlot1 => "SdSlot1"@,
            StorageType::SdSlot2 => "SdSlot2"@,
        }
    }

    pub fn name(self) -> (name: &'static str)
        ensures
            name@ == self.label(),
    {
        match self {
            StorageType::Internal => "Internal",
            StorageType::SdSlot1 => "SdSlot1",
            StorageType::SdSlot2 => "SdSlot2",
        }
    }
}

pub fn encode_sint8(value: i8) -> (encoded: [u8; 1])
    ensures
        encoded@ == seq![sint8_byte(value)],
{
    if value >= 0 {
        [value as u8]
    } else {
        [(value as i16 + 256) as u8]
    }
}

/// What a one-byte value says; an empty one says nothing.
pub open spec fn sint8_value(uuid: Uuid, raw: Seq<u8>) -> ResultView<i8> {
    if raw.len() == 0 {
        Err(ErrorView::BadCharacteristicValue { uuid, got: 0, want: "at least 1"@ })
    } else {
        Ok(sint8(raw[0]))
    }
}

pub fn decode_sint8(uuid: Uuid, raw: &[u8]) -> (value: Result<i8>)
    ensures
        error::seen(value) == sint8_value(uuid, raw@),
{
    if raw.len() == 0 {
        Err(Error::BadCharacteristicValue { uuid, got: 0, want: "at least 1" })
    } else {
        Ok(read_sint8(raw[0]))
    }
}

/// How many bytes stand before the first NUL.
pub open spec fn nul_position(raw: Seq<u8>) -> nat
    decreases raw.len(),
{
    if raw.len() == 0 || raw[0] == 0 {
        0
    } else {
        1 + nul_position(raw.skip(1))
    }
}

/// The bytes before the first NUL.
pub open spec fn before_nul(raw: Seq<u8>) -> Seq<u8> {
    raw.take(nul_position(raw) as int)
}

/// What a `utf8s` characteristic says.
pub open spec fn decoded_text(raw: Seq<u8>) -> Seq<char> {
    text::utf8_lossy(before_nul(raw))
}

proof fn lemma_nul_position(raw: Seq<u8>, at: int)
    requires
        0 <= at <= raw.len(),
        forall|i: int| 0 <= i < at ==> raw[i] != 0,
        at == raw.len() || raw[at] == 0,
    ensures
        nul_position(raw) == at,
    decreases raw.len(),
{
    if raw.len() > 0 && raw[0] != 0 {
        lemma_nul_position(raw.skip(1), at - 1);
    }
}

/// Decode a `utf8s` characteristic, tolerating NUL padding and invalid bytes.
///
/// Lossy on purpose: an odd byte in a model name must not abort a sync.
pub fn decode_utf8(raw: &[u8]) -> (text: String)
    ensures
        text@ == decoded_text(raw@),
        vstd::utf8::valid_utf8(before_nul(raw@)) ==> text@ == vstd::utf8::decode_utf8(
            before_nul(raw@),
        ),
{
    let mut end: usize = 0;
    while end < raw.len() && raw[end] != 0
        invariant
            end <= raw@.len(),
            forall|i: int| 0 <= i < end ==> raw@[i] != 0,
        decreases raw@.len() - end,
    {
        end += 1;
    }
    proof {
        lemma_nul_position(raw@, end as int);
    }
    let kept = vstd::slice::slice_subrange(raw, 0, end);
    assert(kept@ == before_nul(raw@));
    text::lossy_text(kept)
}

#[derive(Debug, Clone, Copy, PartialEq, Eq, Structural)]
pub struct BatteryLevel {
    pub level: i8,
    pub source: PowerSource,
}

impl DeepView for BatteryLevel {
    type V = BatteryLevel;

    open spec fn deep_view(&self) -> BatteryLevel {
        *self
    }
}

impl BatteryLevel {
    pub fn on_ac(self) -> (yes: bool)
        ensures
            yes == (self.source == PowerSource::AcAdapter),
    {
        self.source == PowerSource::AcAdapter
    }
}

/// The battery that a value reports. A power source that is missing or
/// unrecognised reads as running on battery.
pub open spec fn battery_value(raw: Seq<u8>) -> ResultView<BatteryLevel> {
    if raw.len() == 0 {
        Err(
            ErrorView::BadCharacteristicValue {
                uuid: CHAR_BATTERY_LEVEL,
                got: 0,
                want: "1 or 2"@,
            },
        )
    } else {
        Ok(
            BatteryLevel {
                level: sint8(raw[0]),
                source: if raw.len() > 1 && raw[1] == 1 {
                    PowerSource::AcAdapter
                } else {
                    PowerSource::Battery
                },
            },
        )
    }
}

/// Decode `Battery Level`: the level, and where there is a second byte the
/// power source.
///
/// A GR IIIx on firmware 1.41 returns the level and nothing else, so demanding
/// the power-source byte the field list describes made every read fail, and
/// took `min_battery` down with it, because a battery read that errors is
/// treated as non-fatal. A missing or unrecognised source is not worth failing
/// a sync over either; the conservative reading is "running on battery", which
/// only ever makes the battery floor stricter.
pub fn decode_battery_level(raw: &[u8]) -> (level: Result<BatteryLevel>)
    ensures
        error::seen(level) == battery_value(raw@),
{
    if raw.len() == 0 {
        return Err(
            Error::BadCharacteristicValue { uuid: CHAR_BATTERY_LEVEL, got: 0, want: "1 or 2" },
        );
    }
    let mut source = PowerSource::Battery;
    if raw.len() > 1 {
        match PowerSource::from_i8(read_sint8(raw[1])) {
            Ok(known) => {
                source = known;
            },
            Err(_) => {},
        }
    }
    Ok(BatteryLevel { level: read_sint8(raw[0]), source })
}

/// `File Transfer List`, service 4b445988…, characteristic d9ae1c06….
///
/// NOTE: `not_empty` reflects the camera's *transfer queue* (images explicitly
/// marked for transfer in Image Sync), not "photos you have not downloaded
/// yet". A full sync must never gate on it or it will silently skip everything.
#[derive(Debug, Clone, Copy, PartialEq, Eq, Structural)]
pub struct FileTransferList {
    pub not_empty: bool,
    pub changed: bool,
}

impl DeepView for FileTransferList {
    type V = FileTransferList;

    open spec fn deep_view(&self) -> FileTransferList {
        *self
    }
}

/// The queue that a value reports.
pub open spec fn transfer_value(raw: Seq<u8>) -> ResultView<FileTransferList> {
    if raw.len() < 2 {
        Err(
            ErrorView::BadCharacteristicValue {
                uuid: CHAR_FILE_TRANSFER_LIST,
                got: raw.len() as usize,
                want: "2"@,
            },
        )
    } else {
        Ok(FileTransferList { not_empty: raw[0] != 0, changed: raw[1] != 0 })
    }
}

pub fn decode_file_transfer_list(raw: &[u8]) -> (list: Result<FileTransferList>)
    ensures
        error::seen(list) == transfer_value(raw@),
{
    if raw.len() < 2 {
        return Err(
            Error::BadCharacteristicValue {
                uuid: CHAR_FILE_TRANSFER_LIST,
                got: raw.len(),
                want: "2",
            },
        );
    }
    Ok(FileTransferList { not_empty: raw[0] != 0, changed: raw[1] != 0 })
}

#[derive(Debug, Clone, Copy, PartialEq, Eq, Structural)]
pub struct StorageSlot {
    pub kind: StorageType,
    pub present: bool,
    pub locked: bool,
    pub available: bool,
    pub formatted: bool,
    pub remaining_pictures: i32,
    pub remaining_video_seconds: i32,
    pub file_type: u8,
}

impl DeepView for StorageSlot {
    type V = StorageSlot;

    open spec fn deep_view(&self) -> StorageSlot {
        *self
    }
}

/// Layout after the leading element count: type, existence, locked, available,
/// formatted (5 × sint8), remaining pictures, remaining video seconds
/// (2 × sint32), file type (sint8).
///
/// The reverse-engineered field list ends with a further "active" sint8, which
/// a GR IIIx on firmware 1.41 does not send. Its 29-byte payload only divides
/// as `1 + 2 × 14`, and at 14 every field of both slots lands on a sensible
/// value; at 15 the second slot runs off the end and is dropped as truncated,
/// which is how the card itself went missing while the unavailable internal
/// memory was reported in its place.
pub const STORAGE_SLOT_SIZE: usize = 14;

/// How many slots a value holds: as many as it claims, and no more than there
/// are whole slots behind the count.
pub open spec fn slot_count(raw: Seq<u8>) -> int {
    let whole = (raw.len() - 1) / 14;
    if raw.len() == 0 || sint8(raw[0]) < 0 {
        0
    } else if sint8(raw[0]) <= whole {
        sint8(raw[0]) as int
    } else {
        whole
    }
}

/// The slot whose bytes start at `at`. A kind that is not known reads as internal
/// memory.
pub open spec fn slot_at(raw: Seq<u8>, at: int) -> StorageSlot {
    StorageSlot {
        kind: if raw[at] == 1 {
            StorageType::SdSlot1
        } else if raw[at] == 2 {
            StorageType::SdSlot2
        } else {
            StorageType::Internal
        },
        present: raw[at + 1] != 0,
        locked: raw[at + 2] != 0,
        available: raw[at + 3] != 0,
        formatted: raw[at + 4] != 0,
        remaining_pictures: sint32(raw, at + 5),
        remaining_video_seconds: sint32(raw, at + 9),
        file_type: raw[at + 13],
    }
}

/// The slots that a `Storage Information` value reports.
pub open spec fn storage_slots(raw: Seq<u8>) -> Seq<StorageSlot> {
    Seq::new(slot_count(raw) as nat, |i: int| slot_at(raw, 1 + 14 * i))
}

/// Decode `Storage Information` into per-slot records.
///
/// A truncated tail is treated as "no further slots" rather than an error,
/// because the number of slots differs across the camera models that share this
/// GATT profile.
pub fn decode_storage_information(raw: &[u8]) -> (slots: Vec<StorageSlot>)
    ensures
        slots@ == storage_slots(raw@),
{
    let mut slots: Vec<StorageSlot> = Vec::new();
    if raw.len() == 0 {
        return slots;
    }
    let claimed: i8 = read_sint8(raw[0]);
    let mut offset: usize = 1;
    let mut seen: i8 = 0;
    while seen < claimed && raw.len() - offset >= STORAGE_SLOT_SIZE
        invariant
            0 < raw@.len(),
            claimed == sint8(raw@[0]),
            0 <= seen,
            seen <= claimed || seen == 0,
            offset == 1 + 14 * seen,
            offset <= raw@.len(),
            seen <= slot_count(raw@),
            slots@ == storage_slots(raw@).take(seen as int),
        decreases claimed - seen,
    {
        let kind = match StorageType::from_i8(read_sint8(raw[offset])) {
            Ok(kind) => kind,
            Err(_) => StorageType::Internal,
        };
        slots.push(
            StorageSlot {
                kind,
                present: raw[offset + 1] != 0,
                locked: raw[offset + 2] != 0,
                available: raw[offset + 3] != 0,
                formatted: raw[offset + 4] != 0,
                remaining_pictures: read_sint32(raw, offset + 5),
                remaining_video_seconds: read_sint32(raw, offset + 9),
                file_type: raw[offset + 13],
            },
        );
        offset += STORAGE_SLOT_SIZE;
        seen += 1;
        assert(slots@ == storage_slots(raw@).take(seen as int));
    }
    slots
}

/// Whether a UUID is one of the services declared here.
pub open spec fn is_service(uuid: Uuid) -> bool {
    ||| uuid == SERVICE_CAMERA_INFORMATION
    ||| uuid == SERVICE_BLUETOOTH_INFORMATION
    ||| uuid == SERVICE_CAMERA
    ||| uuid == SERVICE_WLAN_CONTROL
    ||| uuid == SERVICE_BLUETOOTH_CONTROL
    ||| uuid == SERVICE_SHOOTING_CONTROL
    ||| uuid == SERVICE_GPS_CONTROL
}

/// No two documented characteristics share a UUID.
pub proof fn lemma_uuids_are_unique(i: int, j: int)
    requires
        0 <= i < profile().len(),
        0 <= j < profile().len(),
        profile()[i].uuid == profile()[j].uuid,
    ensures
        i == j,
{
    reveal(profile);
}

/// No documented characteristic is also a service, and each belongs to a
/// service declared here.
pub proof fn lemma_services_are_declared(i: int)
    requires
        0 <= i < profile().len(),
    ensures
        !is_service(profile()[i].uuid),
        is_service(profile()[i].service),
{
    reveal(profile);
}

/// A name's length, first and third character: enough to tell the documented
/// names apart.
spec fn gist(name: Seq<char>) -> (nat, char, char) {
    (name.len(), name[0], name[2])
}

proof fn lemma_gists(i: int)
    requires
        0 <= i < profile().len(),
    ensures
        gist(profile()[i].name) == gists()[i],
        gists().len() == profile().len(),
{
    reveal(profile);
    reveal_strlit("model_number");
    reveal_strlit("firmware_revision");
    reveal_strlit("serial_number");
    reveal_strlit("manufacturer_name");
    reveal_strlit("bluetooth_device_name");
    reveal_strlit("camera_power");
    reveal_strlit("operation_mode");
    reveal_strlit("operation_mode_list");
    reveal_strlit("battery_level");
    reveal_strlit("storage_information");
    reveal_strlit("file_transfer_list");
    reveal_strlit("power_off_during_file_transfer");
    reveal_strlit("camera_service_notification");
    reveal_strlit("date_time");
    reveal_strlit("geo_tag");
    reveal_strlit("network_type");
    reveal_strlit("ssid");
    reveal_strlit("passphrase");
    reveal_strlit("channel");
    reveal_strlit("ble_enable_condition");
    reveal_strlit("paired_device_name");
    reveal_strlit("gps_information");
    reveal_strlit("operation_request");
    reveal_strlit("capture_status");
    reveal_strlit("capture_mode");
    reveal_strlit("shot_count");
    reveal_strlit("self_timer");
    reveal_strlit("auto_focus_status");
    reveal_strlit("focus_mode");
    reveal_strlit("focus_setting_list");
    reveal_strlit("shooting_mode");
    reveal_strlit("shooting_mode_list");
    reveal_strlit("drive_mode");
    reveal_strlit("drive_mode_list");
    reveal_strlit("metering_mode");
    reveal_strlit("shutter_speed");
    reveal_strlit("shutter_speed_list");
    reveal_strlit("aperture");
    reveal_strlit("aperture_list");
    reveal_strlit("iso_sensitivity");
    reveal_strlit("iso_sensitivity_list");
    reveal_strlit("exposure_compensation");
    reveal_strlit("exposure_compensation_list");
    reveal_strlit("white_balance");
    reveal_strlit("white_balance_list");
    reveal_strlit("file_type");
    reveal_strlit("file_type_list");
    reveal_strlit("jpeg_size");
    reveal_strlit("movie_configuration");
    reveal_strlit("shooting_service_notification");
    reveal_strlit("high_frequency_shooting_service_notification");
}

spec fn gists() -> Seq<(nat, char, char)> {
    seq![
        (12, 'm', 'd'),
        (17, 'f', 'r'),
        (13, 's', 'r'),
        (17, 'm', 'n'),
        (21, 'b', 'u'),
        (12, 'c', 'm'),
        (14, 'o', 'e'),
        (19, 'o', 'e'),
        (13, 'b', 't'),
        (19, 's', 'o'),
        (18, 'f', 'l'),
        (30, 'p', 'w'),
        (27, 'c', 'm'),
        (9, 'd', 't'),
        (7, 'g', 'o'),
        (12, 'n', 't'),
        (4, 's', 'i'),
        (10, 'p', 's'),
        (7, 'c', 'a'),
        (20, 'b', 'e'),
        (18, 'p', 'i'),
        (15, 'g', 's'),
        (17, 'o', 'e'),
        (14, 'c', 'p'),
        (12, 'c', 'p'),
        (10, 's', 'o'),
        (10, 's', 'l'),
        (17, 'a', 't'),
        (10, 'f', 'c'),
        (18, 'f', 'c'),
        (13, 's', 'o'),
        (18, 's', 'o'),
        (10, 'd', 'i'),
        (15, 'd', 'i'),
        (13, 'm', 't'),
        (13, 's', 'u'),
        (18, 's', 'u'),
        (8, 'a', 'e'),
        (13, 'a', 'e'),
        (15, 'i', 'o'),
        (20, 'i', 'o'),
        (21, 'e', 'p'),
        (26, 'e', 'p'),
        (13, 'w', 'i'),
        (18, 'w', 'i'),
        (9, 'f', 'l'),
        (14, 'f', 'l'),
        (9, 'j', 'e'),
        (19, 'm', 'v'),
        (29, 's', 'o'),
        (44, 'h', 'g'),
    ]
}

/// No two documented characteristics share a name.
pub proof fn lemma_names_are_unique(i: int, j: int)
    requires
        0 <= i < profile().len(),
        0 <= j < profile().len(),
        profile()[i].name == profile()[j].name,
    ensures
        i == j,
{
    lemma_gists(i);
    lemma_gists(j);
}

/// No documented name is of a length that a UUID can be written in.
pub proof fn lemma_names_are_no_uuids(i: int)
    requires
        0 <= i < profile().len(),
    ensures
        ids::uuid_value(profile()[i].name) is None,
{
    lemma_gists(i);
}

/// A documented name resolves to its own entry, and a documented UUID to its own
/// service.
pub proof fn lemma_entries_resolve(i: int)
    requires
        0 <= i < profile().len(),
    ensures
        documented(profile()[i].name) == Some(profile()[i]),
        documented_service(profile()[i].uuid) == Some(profile()[i].service),
{
    lemma_named_from(i, 0);
    lemma_service_from(i, 0);
}

proof fn lemma_named_from(i: int, from: nat)
    requires
        from <= i < profile().len(),
    ensures
        named_from(profile(), profile()[i].name, from) == Some(profile()[i]),
    decreases i - from,
{
    if profile()[from as int].name == profile()[i].name {
        lemma_names_are_unique(from as int, i);
    } else {
        lemma_named_from(i, from + 1);
    }
}

proof fn lemma_service_from(i: int, from: nat)
    requires
        from <= i < profile().len(),
    ensures
        service_from(profile(), profile()[i].uuid, from) == Some(profile()[i].service),
    decreases i - from,
{
    if profile()[from as int].uuid == profile()[i].uuid {
        lemma_uuids_are_unique(from as int, i);
    } else {
        lemma_service_from(i, from + 1);
    }
}

/// What is encoded reads back, negative or not.
pub proof fn lemma_sint8_round_trips(value: i8)
    ensures
        sint8(sint8_byte(value)) == value,
{
}

/// A documented value reads back as itself, and no number stands for two values.
pub proof fn lemma_enumerations_round_trip()
    ensures
        forall|v: CameraPower| CameraPower::read_back(#[trigger] v.code()) == Ok::<CameraPower, ErrorView>(v),
        forall|v: OperationMode| OperationMode::read_back(#[trigger] v.code()) == Ok::<OperationMode, ErrorView>(v),
        forall|v: NetworkType| NetworkType::read_back(#[trigger] v.code()) == Ok::<NetworkType, ErrorView>(v),
        forall|v: BleEnableCondition| BleEnableCondition::read_back(#[trigger] v.code()) == Ok::<BleEnableCondition, ErrorView>(v),
        forall|v: PowerSource| PowerSource::read_back(#[trigger] v.code()) == Ok::<PowerSource, ErrorView>(v),
        forall|v: StorageType| StorageType::read_back(#[trigger] v.code()) == Ok::<StorageType, ErrorView>(v),
{
}

/// A number that no documented value has is refused.
pub proof fn lemma_undocumented_values_are_refused(value: i8)
    ensures
        (forall|v: CameraPower| (#[trigger] v.code()) != value) ==> CameraPower::read_back(value) is Err,
        (forall|v: OperationMode| (#[trigger] v.code()) != value) ==> OperationMode::read_back(value) is Err,
        (forall|v: NetworkType| (#[trigger] v.code()) != value) ==> NetworkType::read_back(value) is Err,
        (forall|v: BleEnableCondition| (#[trigger] v.code()) != value) ==> BleEnableCondition::read_back(value) is Err,
        (forall|v: PowerSource| (#[trigger] v.code()) != value) ==> PowerSource::read_back(value) is Err,
        (forall|v: StorageType| (#[trigger] v.code()) != value) ==> StorageType::read_back(value) is Err,
{
    assert(CameraPower::Off.code() == 0);
    assert(CameraPower::On.code() == 1);
    assert(CameraPower::Sleep.code() == 2);
    assert(OperationMode::Capture.code() == 0);
    assert(OperationMode::Playback.code() == 1);
    assert(OperationMode::BleStartup.code() == 2);
    assert(OperationMode::Other.code() == 3);
    assert(OperationMode::PowerOffTransfer.code() == 4);
    assert(NetworkType::Off.code() == 0);
    assert(NetworkType::ApMode.code() == 1);
    assert(BleEnableCondition::Disable.code() == 0);
    assert(BleEnableCondition::OnAnytime.code() == 1);
    assert(BleEnableCondition::OnWhenPowerOn.code() == 2);
    assert(PowerSource::Battery.code() == 0);
    assert(PowerSource::AcAdapter.code() == 1);
    assert(StorageType::Internal.code() == 0);
    assert(StorageType::SdSlot1.code() == 1);
    assert(StorageType::SdSlot2.code() == 2);
}

/// NUL padding behind a text is not part of it.
pub proof fn lemma_padding_is_stripped(bytes: Seq<u8>, padding: Seq<u8>)
    requires
        forall|i: int| 0 <= i < bytes.len() ==> bytes[i] != 0,
        padding.len() > 0 ==> padding[0] == 0,
    ensures
        before_nul(bytes + padding) == bytes,
        decoded_text(bytes + padding) == decoded_text(bytes),
{
    lemma_nul_position(bytes + padding, bytes.len() as int);
    lemma_nul_position(bytes, bytes.len() as int);
    assert((bytes + padding).take(bytes.len() as int) == bytes);
    assert(bytes.take(bytes.len() as int) == bytes);
}

/// A list yields no more than it claims, and never reads past its bytes.
pub proof fn lemma_lists_stay_within_their_bytes(raw: Seq<u8>, element: ListElement)
    requires
        raw.len() > 0,
    ensures
        list_values(raw, element).len() <= raw[0],
        1 + element_width(element) * list_values(raw, element).len() <= raw.len(),
{
}

/// Storage slots are no more than the camera claims, and none is read past the
/// end of the value.
pub proof fn lemma_slots_stay_within_their_bytes(raw: Seq<u8>)
    requires
        raw.len() > 0,
    ensures
        storage_slots(raw).len() <= raw[0],
        1 + STORAGE_SLOT_SIZE * storage_slots(raw).len() <= raw.len(),
{
}

/// Numbers are sent with their least significant byte first, and those of four bytes
/// wrap below zero from half their range on.
pub proof fn lemma_least_significant_first(raw: Seq<u8>, at: int)
    ensures
        uint16(raw[at], raw[at + 1]) % 256 == raw[at],
        uint16(raw[at], raw[at + 1]) / 256 == raw[at + 1],
        ({
            let plain = raw[at] + 0x100 * raw[at + 1] + 0x1_0000 * raw[at + 2] + 0x100_0000
                * raw[at + 3];
            sint32(raw, at) == if plain < 0x8000_0000 {
                plain
            } else {
                plain - 0x1_0000_0000
            }
        }),
{
}

/// A list has as many elements as it claims, unless fewer are there; each is read
/// from its own bytes, and what was encoded reads back.
pub proof fn lemma_lists_read_back(claimed: u8, values: Seq<i8>, raw: Seq<u8>, i: int)
    requires
        raw == seq![claimed] + values.map_values(|value: i8| sint8_byte(value)),
    ensures
        list_values(raw, ListElement::Sint8).len() == if claimed <= values.len() {
            claimed as int
        } else {
            values.len() as int
        },
        0 <= i < list_values(raw, ListElement::Sint8).len() ==> list_values(
            raw,
            ListElement::Sint8,
        )[i] == values[i],
        list_values(raw, ListElement::Sint32).len() == if claimed <= values.len() / 4 {
            claimed as int
        } else {
            values.len() as int / 4
        },
        0 <= i < list_values(raw, ListElement::Sint32).len() ==> list_values(
            raw,
            ListElement::Sint32,
        )[i] == sint32(raw.subrange(1 + 4 * i, 5 + 4 * i), 0),
        list_values(Seq::empty(), ListElement::Sint8).len() == 0,
        list_values(Seq::empty(), ListElement::Sint32).len() == 0,
{
    let bytes = values.map_values(|value: i8| sint8_byte(value));
    assert(raw.len() == 1 + values.len());
    assert(raw[0] == claimed);
    if 0 <= i < list_values(raw, ListElement::Sint8).len() {
        assert(raw[1 + i] == bytes[i]);
        assert(bytes[i] == sint8_byte(values[i]));
    }
    if 0 <= i < list_values(raw, ListElement::Sint32).len() {
        let part = raw.subrange(1 + 4 * i, 5 + 4 * i);
        assert(part[0] == raw[1 + 4 * i]);
        assert(part[1] == raw[1 + 4 * i + 1]);
        assert(part[2] == raw[1 + 4 * i + 2]);
        assert(part[3] == raw[1 + 4 * i + 3]);
    }
}

proof fn lemma_short_decimals(n: nat)
    ensures
        n < 10 ==> text::decimal(n).len() == 1,
        10 <= n < 100 ==> text::decimal(n).len() == 2,
        100 <= n < 1000 ==> text::decimal(n).len() == 3,
        1000 <= n < 10000 ==> text::decimal(n).len() == 4,
{
    reveal_with_fuel(text::decimal, 5);
}

proof fn lemma_padded_number(n: nat, width: nat)
    requires
        width == 2 && n < 100 || width == 4 && n < 10000,
    ensures
        text::left_padded(text::decimal(n), '0', width).len() == width,
        text::decimal_value(text::left_padded(text::decimal(n), '0', width)) == n,
{
    lemma_short_decimals(n);
    text::lemma_decimal_reads_back(n);
    let digits = text::decimal(n);
    if digits.len() < width {
        let zeros = (width - digits.len()) as nat;
        text::lemma_leading_zeros(digits, zeros);
    }
}

/// A date and time reads back from its text: year, month, day, hour, minute and
/// second stand in this order, in four digits and in two, set apart by the usual
/// signs.
pub proof fn lemma_dates_read_back(raw: Seq<u8>)
    requires
        raw.len() >= 7,
        raw[0] + 256 * raw[1] < 10000,
        forall|i: int| 2 <= i < 7 ==> #[trigger] raw[i] < 100,
    ensures
        ({
            let text = date_time_text(raw);
            &&& text.len() == 19
            &&& text::decimal_value(text.subrange(0, 4)) == raw[0] + 256 * raw[1]
            &&& text::decimal_value(text.subrange(5, 7)) == raw[2]
            &&& text::decimal_value(text.subrange(8, 10)) == raw[3]
            &&& text::decimal_value(text.subrange(11, 13)) == raw[4]
            &&& text::decimal_value(text.subrange(14, 16)) == raw[5]
            &&& text::decimal_value(text.subrange(17, 19)) == raw[6]
            &&& text[4] == '-' && text[7] == '-' && text[10] == ' ' && text[13] == ':' && text[16]
                == ':'
        }),
{
    reveal_strlit("-");
    reveal_strlit(" ");
    reveal_strlit(":");
    let year = text::left_padded(text::decimal(uint16(raw[0], raw[1]) as nat), '0', 4);
    lemma_padded_number(uint16(raw[0], raw[1]) as nat, 4);
    lemma_padded_number(raw[2] as nat, 2);
    lemma_padded_number(raw[3] as nat, 2);
    lemma_padded_number(raw[4] as nat, 2);
    lemma_padded_number(raw[5] as nat, 2);
    lemma_padded_number(raw[6] as nat, 2);
    let text = date_time_text(raw);
    assert(text.subrange(0, 4) =~= year);
    assert(text.subrange(5, 7) =~= two_digits(raw[2]));
    assert(text.subrange(8, 10) =~= two_digits(raw[3]));
    assert(text.subrange(11, 13) =~= two_digits(raw[4]));
    assert(text.subrange(14, 16) =~= two_digits(raw[5]));
    assert(text.subrange(17, 19) =~= two_digits(raw[6]));
}

/// A battery level reads back, alone or with its source, whatever follows; a source
/// that is missing or unknown is the battery, and an empty value is no reading.
pub proof fn lemma_battery_levels_read_back(
    level: i8,
    source: PowerSource,
    other: u8,
    rest: Seq<u8>,
)
    ensures
        battery_value(seq![sint8_byte(level)]) == Ok::<BatteryLevel, ErrorView>(
            BatteryLevel { level, source: PowerSource::Battery },
        ),
        battery_value(seq![sint8_byte(level), sint8_byte(source.code())] + rest) == Ok::<
            BatteryLevel,
            ErrorView,
        >(BatteryLevel { level, source }),
        PowerSource::read_back(sint8(other)) is Err ==> battery_value(
            seq![sint8_byte(level), other] + rest,
        ) == Ok::<BatteryLevel, ErrorView>(
            BatteryLevel { level, source: PowerSource::Battery },
        ),
        battery_value(Seq::empty()) is Err,
{
    let two = seq![sint8_byte(level), sint8_byte(source.code())] + rest;
    assert(two[0] == sint8_byte(level) && two[1] == sint8_byte(source.code()));
    let odd = seq![sint8_byte(level), other] + rest;
    assert(odd[0] == sint8_byte(level) && odd[1] == other);
}

/// There are as many slots as claimed, unless fewer are there whole; and each is read
/// from its own fourteen bytes alone, as it would be if it were the only one.
pub proof fn lemma_each_slot_is_read_alone(raw: Seq<u8>, i: int)
    requires
        raw.len() > 0,
        0 <= i < storage_slots(raw).len(),
    ensures
        raw[0] < 128 && 14 * raw[0] < raw.len() ==> storage_slots(raw).len() == raw[0],
        storage_slots(raw)[i] == storage_slots(
            seq![1u8] + raw.subrange(1 + 14 * i, 15 + 14 * i),
        )[0],
{
    lemma_slots_stay_within_their_bytes(raw);
    let part = raw.subrange(1 + 14 * i, 15 + 14 * i);
    let alone = seq![1u8] + part;
    assert(alone.len() == 15);
    assert(slot_count(alone) == 1);
    assert(forall|j: int| 1 <= j < 15 ==> #[trigger] alone[j] == raw[14 * i + j]);
    assert(slot_at(alone, 1) == slot_at(raw, 1 + 14 * i));
}

/// What one slot's bytes say: where it is, by its number, four facts that hold where
/// their byte is not zero, and how much is left.
pub proof fn lemma_what_a_slot_says(kind: StorageType, raw: Seq<u8>)
    requires
        raw.len() == 15,
        raw[0] == 1,
        raw[1] == sint8_byte(kind.code()),
    ensures
        storage_slots(raw).len() == 1,
        ({
            let slot = storage_slots(raw)[0];
            &&& slot.kind == kind
            &&& slot.present <==> raw[2] != 0
            &&& slot.locked <==> raw[3] != 0
            &&& slot.available <==> raw[4] != 0
            &&& slot.formatted <==> raw[5] != 0
            &&& slot.remaining_pictures == sint32(raw.subrange(6, 10), 0)
            &&& slot.remaining_video_seconds == sint32(raw.subrange(10, 14), 0)
            &&& slot.file_type == raw[14]
        }),
{
    assert(slot_count(raw) == 1);
}

/// What one byte of a value says is its number; and a queue is told by two bytes, of
/// which it needs both.
pub proof fn lemma_short_values(uuid: Uuid, value: i8, first: u8, second: u8, rest: Seq<u8>)
    ensures
        sint8_value(uuid, seq![sint8_byte(value)] + rest) == Ok::<i8, ErrorView>(value),
        sint8_value(uuid, Seq::empty()) is Err,
        transfer_value(seq![first]) is Err,
        transfer_value(Seq::empty()) is Err,
        transfer_value(seq![first, second] + rest) == Ok::<FileTransferList, ErrorView>(
            FileTransferList { not_empty: first > 0, changed: second > 0 },
        ),
        decoded(Encoding::Sint8, seq![sint8_byte(value)] + rest) == Some(
            DecodedView::Number(value as i64),
        ),
        decoded(Encoding::Uint8, seq![first] + rest) == Some(DecodedView::Number(first as i64)),
        decoded(Encoding::Sint8, Seq::empty()) is None,
        decoded(Encoding::Uint8, Seq::empty()) is None,
        decoded(Encoding::Sint32, seq![first, second]) is None,
{
    let one = seq![sint8_byte(value)] + rest;
    assert(one[0] == sint8_byte(value));
    let two = seq![first, second] + rest;
    assert(two[0] == first && two[1] == second);
    assert((seq![first] + rest)[0] == first);
}

/// What is not documented is not found: a name, or a UUID, that no entry has.
pub proof fn lemma_only_documented_entries_are_found(name: Seq<char>, uuid: Uuid)
    ensures
        documented(name) matches Some(found) ==> profile().contains(found) && found.name == name,
        documented(name) is None ==> forall|i: int|
            0 <= i < profile().len() ==> (#[trigger] profile()[i]).name != name,
        documented_service(uuid) is None <==> forall|i: int|
            0 <= i < profile().len() ==> (#[trigger] profile()[i]).uuid != uuid,
{
    lemma_name_search(name, 0);
    lemma_service_search(uuid, 0);
}

proof fn lemma_name_search(name: Seq<char>, from: nat)
    ensures
        match named_from(profile(), name, from) {
            Some(found) => profile().contains(found) && found.name == name,
            None => forall|i: int|
                from <= i < profile().len() ==> (#[trigger] profile()[i]).name != name,
        },
    decreases profile().len() - from,
{
    if from < profile().len() {
        if profile()[from as int].name == name {
            assert(profile().contains(profile()[from as int]));
        } else {
            lemma_name_search(name, from + 1);
        }
    }
}

proof fn lemma_service_search(uuid: Uuid, from: nat)
    ensures
        service_from(profile(), uuid, from) is None <==> forall|i: int|
            from <= i < profile().len() ==> (#[trigger] profile()[i]).uuid != uuid,
    decreases profile().len() - from,
{
    if from < profile().len() {
        lemma_service_search(uuid, from + 1);
        assert(profile()[from as int].uuid == uuid || service_from(profile(), uuid, from)
            == service_from(profile(), uuid, from + 1));
    }
}

/// The numbers that the camera uses are the documented ones, counted from zero in the
/// order of the values.
pub proof fn lemma_values_are_counted_from_zero()
    ensures
        CameraPower::Off.code() == 0 && CameraPower::On.code() == 1 && CameraPower::Sleep.code()
            == 2,
        OperationMode::Capture.code() == 0 && OperationMode::Playback.code() == 1
            && OperationMode::BleStartup.code() == 2 && OperationMode::Other.code() == 3
            && OperationMode::PowerOffTransfer.code() == 4,
        NetworkType::Off.code() == 0 && NetworkType::ApMode.code() == 1,
        BleEnableCondition::Disable.code() == 0 && BleEnableCondition::OnAnytime.code() == 1
            && BleEnableCondition::OnWhenPowerOn.code() == 2,
        PowerSource::Battery.code() == 0 && PowerSource::AcAdapter.code() == 1,
        StorageType::Internal.code() == 0 && StorageType::SdSlot1.code() == 1
            && StorageType::SdSlot2.code() == 2,
{
}

/// A value is decoded by its encoding: a text as a text, a number as the number its
/// first bytes are, a list as its elements; and what is structured or not understood is
/// not decoded at all.
pub proof fn lemma_values_are_decoded_by_their_encoding(raw: Seq<u8>, element: ListElement)
    ensures
        decoded(Encoding::Utf8, raw) == Some(DecodedView::Text(decoded_text(raw))),
        raw.len() >= 4 ==> decoded(Encoding::Sint32, raw) == Some(
            DecodedView::Number(sint32(raw.take(4), 0) as i64),
        ),
        raw.len() < 4 ==> decoded(Encoding::Sint32, raw) is None,
        decoded(Encoding::List(element), raw) == Some(
            DecodedView::List(list_values(raw, element)),
        ),
        decoded(Encoding::Structured, raw) is None,
        decoded(Encoding::Opaque, raw) is None,
{
}

} // verus!
