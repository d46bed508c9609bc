use gr3sync::protocol::{
    characteristic_named, decode_battery_level, decode_date_time, decode_file_transfer_list,
    decode_list, decode_sint8, decode_storage_information, decode_utf8, decode_value, encode_sint8,
    known_characteristics, service_of, BleEnableCondition, CameraPower, Decoded, Encoding,
    FileTransferList, ListElement, NetworkType, OperationMode, PowerSource, StorageType,
    CHAR_BATTERY_LEVEL, CHAR_CAMERA_POWER, CHAR_FILE_TRANSFER_LIST, CHAR_MODEL_NUMBER,
    CHAR_NETWORK_TYPE, CHAR_PASSPHRASE, CHAR_SSID, SERVICE_BLUETOOTH_CONTROL,
    SERVICE_BLUETOOTH_INFORMATION, SERVICE_CAMERA, SERVICE_CAMERA_INFORMATION,
    SERVICE_GPS_CONTROL, SERVICE_SHOOTING_CONTROL, SERVICE_WLAN_CONTROL,
};
use gr3sync::Error;

fn all_characteristics() -> Vec<u128> {
    known_characteristics().iter().map(|c| c.uuid).collect()
}

fn services() -> [u128; 7] {
    [
        SERVICE_CAMERA_INFORMATION,
        SERVICE_BLUETOOTH_INFORMATION,
        SERVICE_CAMERA,
        SERVICE_WLAN_CONTROL,
        SERVICE_BLUETOOTH_CONTROL,
        SERVICE_SHOOTING_CONTROL,
        SERVICE_GPS_CONTROL,
    ]
}

#[test]
fn characteristic_uuids_are_unique() {
    let mut seen = all_characteristics();
    let before = seen.len();
    seen.sort();
    seen.dedup();
    assert_eq!(before, seen.len(), "duplicated characteristic UUIDs");
}

#[test]
fn characteristic_names_are_unique() {
    // Two entries under one name would make `raw read <name>` resolve to
    // whichever came first, which is not a thing anyone should debug.
    let table = known_characteristics();
    let mut names: Vec<&str> = table.iter().map(|c| c.name).collect();
    let before = names.len();
    names.sort_unstable();
    names.dedup();
    assert_eq!(before, names.len(), "duplicated characteristic names");
    assert_eq!(before, 51);
}

#[test]
fn services_are_distinct_from_characteristics() {
    for service in services() {
        assert!(
            !all_characteristics().contains(&service),
            "{service} is both"
        );
    }
}

#[test]
fn every_characteristic_names_a_service_we_declare() {
    // Holding the service beside the UUID makes "has a service" trivially
    // true, so the useful question is whether it is one of ours: a typo in
    // a service UUID would otherwise reach the emulator's GATT table and
    // put the characteristic somewhere no client would look for it.
    for characteristic in known_characteristics() {
        assert!(
            services().contains(&characteristic.service),
            "{} points at an undeclared service {}",
            characteristic.name,
            characteristic.service
        );
        assert_eq!(
            service_of(characteristic.uuid),
            Some(characteristic.service)
        );
    }
}

/// An ISO list as a camera sends it: a count, then 32 sint32 values in thirds
/// of a stop.
fn iso_list() -> Vec<u8> {
    let series: [i32; 32] = [
        100, 125, 160, 200, 250, 320, 400, 500, 640, 800, 1000, 1250, 1600, 2000, 2500, 3200, 4000,
        5000, 6400, 8000, 10000, 12800, 16000, 20000, 25600, 32000, 40000, 51200, 64000, 80000,
        102400, -1,
    ];
    let mut raw = vec![32u8];
    for value in series {
        raw.extend_from_slice(&value.to_le_bytes());
    }
    raw
}

#[test]
fn the_iso_list_decodes_to_the_iso_series() {
    // 32 sint32 values. If the element width or the count offset were
    // wrong this would not come out as the numbers written on a dial.
    let values = decode_value(Encoding::List(ListElement::Sint32), &iso_list());
    let Some(Decoded::List(values)) = values else {
        panic!("expected a list, got {values:?}")
    };
    assert_eq!(values.len(), 32);
    assert_eq!(&values[..5], &[100, 125, 160, 200, 250]);
    assert_eq!(values[30], 102400);
    assert_eq!(values[31], -1);
}

#[test]
fn the_clock_decodes_to_when_the_capture_was_taken() {
    assert_eq!(
        decode_date_time(&[0xea, 0x07, 8, 3, 10, 38, 43]).as_deref(),
        Some("2026-08-03 10:38:43")
    );
}

#[test]
fn a_list_shorter_than_its_own_count_yields_what_is_there() {
    // Not a hypothetical: a camera claims ten focus settings and sends nine
    // bytes. Trusting the count would read past the value.
    let raw: [u8; 10] = [10, 0, 1, 2, 3, 4, 5, 6, 7, 8];
    assert_eq!(raw[0], 10, "the count the camera claims");
    assert_eq!(raw.len(), 10, "one byte of count plus nine of payload");
    assert_eq!(decode_list(&raw, ListElement::Sint8).len(), 9);
    // Half a value is no value.
    assert_eq!(
        decode_list(&[2, 1, 0, 0, 0, 2, 0], ListElement::Sint32),
        vec![1]
    );
}

#[test]
fn an_empty_list_is_empty_rather_than_padding() {
    // A count of zero followed by 49 zero bytes: those are padding, not
    // forty-nine settings.
    assert!(decode_list(&[0u8; 50], ListElement::Sint8).is_empty());
    assert!(decode_list(&[], ListElement::Sint8).is_empty());
}

#[test]
fn scalars_and_strings_decode_from_the_capture() {
    assert_eq!(
        decode_value(Encoding::Sint32, &[0x64, 0, 0, 0]),
        Some(Decoded::Number(100))
    );
    assert_eq!(
        decode_value(Encoding::Utf8, b"RICOH GR IIIx"),
        Some(Decoded::Text("RICOH GR IIIx".into()))
    );
    // Structured and opaque values have no single-enum answer, and must
    // not invent one.
    assert!(decode_value(Encoding::Structured, &[2, 0, 1, 0, 0, 1]).is_none());
    assert!(decode_value(Encoding::Opaque, &[0; 20]).is_none());
}

#[test]
fn short_scalars_have_no_value() {
    assert!(decode_value(Encoding::Sint8, &[]).is_none());
    assert!(decode_value(Encoding::Uint8, &[]).is_none());
    assert!(decode_value(Encoding::Sint32, &[1, 2, 3]).is_none());
    assert_eq!(
        decode_value(Encoding::Sint8, &[0xff]),
        Some(Decoded::Number(-1))
    );
    assert_eq!(
        decode_value(Encoding::Uint8, &[0xff]),
        Some(Decoded::Number(255))
    );
    assert_eq!(
        decode_value(Encoding::Sint32, &[0, 0, 0, 0x80]),
        Some(Decoded::Number(-2147483648))
    );
    assert!(decode_date_time(&[0xea, 0x07, 8, 3, 10, 38]).is_none());
}

#[test]
fn a_characteristic_resolves_by_name() {
    let found = characteristic_named("operation_request").expect("known");
    assert_eq!(found.service, SERVICE_SHOOTING_CONTROL);
    assert!(characteristic_named("no_such_thing").is_none());
}

#[test]
fn an_unknown_characteristic_has_no_service() {
    assert!(service_of(uuid::Uuid::nil().as_u128()).is_none());
}

#[test]
fn the_wlan_characteristics_share_one_service() {
    let wlan = service_of(CHAR_NETWORK_TYPE).unwrap();
    assert_eq!(wlan, SERVICE_WLAN_CONTROL);
    assert_eq!(service_of(CHAR_SSID), Some(wlan));
    assert_eq!(service_of(CHAR_PASSPHRASE), Some(wlan));
    assert_ne!(service_of(CHAR_CAMERA_POWER), Some(wlan));
}

#[test]
fn network_type_ap_mode_is_one() {
    // The single most load-bearing value in the project: writing this to
    // CHAR_NETWORK_TYPE is what raises the camera's access point.
    assert_eq!(NetworkType::ApMode.as_i8(), 1);
    assert_eq!(encode_sint8(NetworkType::ApMode.as_i8()), [0x01]);
    assert_eq!(NetworkType::Off.as_i8(), 0);
}

#[test]
fn documented_enum_values() {
    assert_eq!(CameraPower::Off.as_i8(), 0);
    assert_eq!(CameraPower::On.as_i8(), 1);
    assert_eq!(CameraPower::Sleep.as_i8(), 2);
    assert_eq!(OperationMode::PowerOffTransfer.as_i8(), 4);
    assert_eq!(BleEnableCondition::OnAnytime.as_i8(), 1);
}

#[test]
fn an_undocumented_enum_value_is_an_error_not_a_guess() {
    // Coercing this would hide the fact that our model of the camera is
    // wrong, and the next thing gr3sync does is write a value back.
    assert!(CameraPower::from_i8(7).is_err());
    assert!(NetworkType::from_i8(-1).is_err());
    let err = CameraPower::from_i8(7).unwrap_err();
    assert!(err.message().contains("CameraPower has no value 7"), "{err:?}");
}

#[test]
fn every_documented_value_reads_back() {
    for value in 0..=2 {
        assert_eq!(CameraPower::from_i8(value).unwrap().as_i8(), value);
        assert_eq!(StorageType::from_i8(value).unwrap().as_i8(), value);
    }
    for value in 0..=4 {
        assert_eq!(OperationMode::from_i8(value).unwrap().as_i8(), value);
    }
    for value in 0..=1 {
        assert_eq!(NetworkType::from_i8(value).unwrap().as_i8(), value);
        assert_eq!(PowerSource::from_i8(value).unwrap().as_i8(), value);
    }
    assert_eq!(PowerSource::AcAdapter.name(), "AcAdapter");
    assert_eq!(OperationMode::BleStartup.name(), "BleStartup");
    assert_eq!(BleEnableCondition::OnAnytime.name(), "OnAnytime");
}

#[test]
fn sint8_round_trips_including_negatives() {
    for value in [0i8, 1, 4, -1, 127, -128] {
        let encoded = encode_sint8(value);
        assert_eq!(decode_sint8(CHAR_CAMERA_POWER, &encoded).unwrap(), value);
    }
}

#[test]
fn decode_sint8_rejects_an_empty_value() {
    assert!(decode_sint8(CHAR_CAMERA_POWER, &[]).is_err());
    let err = decode_sint8(CHAR_CAMERA_POWER, &[]).unwrap_err();
    assert!(
        matches!(
            err,
            Error::BadCharacteristicValue {
                uuid: CHAR_CAMERA_POWER,
                got: 0,
                ..
            }
        ),
        "{err:?}"
    );
    assert!(err.message().contains("b58ce84c-0666-4de9-bec8-2d27b27b3211"));
}

#[test]
fn utf8_strips_nul_padding_and_survives_bad_bytes() {
    assert_eq!(decode_utf8(b"GR_4CF5C6\0\0\0"), "GR_4CF5C6");
    assert_eq!(decode_utf8(b""), "");
    assert_eq!(decode_utf8(b"GR_\xff\xfe"), "GR_\u{fffd}\u{fffd}");
}

#[test]
fn battery_level_decodes_both_power_sources() {
    let on_battery = decode_battery_level(&[0x50, 0x00]).unwrap();
    assert_eq!(on_battery.level, 80);
    assert!(!on_battery.on_ac());

    let on_ac = decode_battery_level(&[0x64, 0x01]).unwrap();
    assert_eq!(on_ac.level, 100);
    assert!(on_ac.on_ac());
}

#[test]
fn battery_level_survives_a_camera_that_omits_the_power_source() {
    // Observed on a GR IIIx, firmware 1.41: `875fc41d-…` returns `64` and
    // nothing else. Requiring two bytes made this a read error, and a
    // battery read error takes `min_battery` with it.
    let one_byte = decode_battery_level(&[0x64]).unwrap();
    assert_eq!(one_byte.level, 100);
    assert!(!one_byte.on_ac(), "an absent source must read as battery");
}

#[test]
fn battery_level_needs_at_least_one_byte() {
    assert!(decode_battery_level(&[]).is_err());
    assert!(matches!(
        decode_battery_level(&[]).unwrap_err(),
        Error::BadCharacteristicValue {
            uuid: CHAR_BATTERY_LEVEL,
            got: 0,
            ..
        }
    ));
}

#[test]
fn file_transfer_list_decodes_both_flags() {
    assert_eq!(
        decode_file_transfer_list(&[1, 0]).unwrap(),
        FileTransferList {
            not_empty: true,
            changed: false
        }
    );
    assert_eq!(
        decode_file_transfer_list(&[0, 1]).unwrap(),
        FileTransferList {
            not_empty: false,
            changed: true
        }
    );
    assert!(decode_file_transfer_list(&[1]).is_err());
    assert!(matches!(
        decode_file_transfer_list(&[1]).unwrap_err(),
        Error::BadCharacteristicValue {
            uuid: CHAR_FILE_TRANSFER_LIST,
            got: 1,
            ..
        }
    ));
}

#[test]
fn storage_information_decodes_what_a_real_camera_sent() {
    // Verbatim from a GR IIIx, firmware 1.41, with a card in the slot:
    //
    //   count  02
    //   slot 0 00 01 00 00 01 | 00000000 | 00000000 | 02
    //   slot 1 01 01 00 01 01 | 2d080000 | a24e0000 | 02
    //
    // 29 bytes, which only divides as 1 + 2 × 14.
    let payload = [
        0x02, //
        0x00, 0x01, 0x00, 0x00, 0x01, 0x00, 0x00, 0x00, 0x00, 0x00, 0x00, 0x00, 0x00, 0x02, //
        0x01, 0x01, 0x00, 0x01, 0x01, 0x2d, 0x08, 0x00, 0x00, 0xa2, 0x4e, 0x00, 0x00, 0x02,
    ];

    let slots = decode_storage_information(&payload);
    assert_eq!(
        slots.len(),
        2,
        "the card is the second slot; do not drop it"
    );

    // Internal memory: there, formatted, and not the one being written to.
    assert_eq!(slots[0].kind, StorageType::Internal);
    assert!(slots[0].present && slots[0].formatted);
    assert!(!slots[0].available && !slots[0].locked);
    assert_eq!(slots[0].remaining_pictures, 0);

    // The card.
    assert_eq!(slots[1].kind, StorageType::SdSlot1);
    assert!(slots[1].present && slots[1].available && slots[1].formatted);
    assert!(!slots[1].locked);
    assert_eq!(slots[1].remaining_pictures, 2093);
    assert_eq!(slots[1].remaining_video_seconds, 20130);
    assert_eq!(slots[1].file_type, 2);
}

#[test]
fn storage_information_tolerates_truncation() {
    // Models sharing this GATT profile report different slot counts; a
    // claimed slot with no bytes behind it must be dropped, not panic.
    assert!(decode_storage_information(&[2, 1, 1]).is_empty());
    assert!(decode_storage_information(&[]).is_empty());
}

#[test]
fn an_undocumented_slot_kind_is_internal_memory() {
    let mut payload = vec![1u8];
    payload.extend_from_slice(&[9, 1, 1, 1, 0, 0xff, 0xff, 0xff, 0xff, 0, 0, 0, 0, 7]);
    let slots = decode_storage_information(&payload);
    assert_eq!(slots.len(), 1);
    assert_eq!(slots[0].kind, StorageType::Internal);
    assert!(slots[0].locked && !slots[0].formatted);
    assert_eq!(slots[0].remaining_pictures, -1);
    assert_eq!(slots[0].file_type, 7);
}

#[test]
fn uuids_are_the_ones_written_with_hyphens() {
    let parsed = uuid::Uuid::parse_str("35fe6272-6aa5-44d9-88e1-f09427f51a71").unwrap();
    assert_eq!(parsed.as_u128(), CHAR_MODEL_NUMBER);
}
