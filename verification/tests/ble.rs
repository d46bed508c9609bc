use std::cell::RefCell;
use std::collections::{BTreeMap, BTreeSet};

use gr3sync::ble::{
    after_refusal, discovered, fits, is_camera_name, pick_one, scans_all, select_one, AfterRefusal,
    DiscoveredCamera, Gatt, GattOp, GattReply, Session,
};
use gr3sync::protocol as p;
use gr3sync::{Error, Result};

/// An in-memory GATT table standing in for the camera.
#[derive(Default)]
struct FakeGatt {
    values: RefCell<BTreeMap<u128, Vec<u8>>>,
    reads: RefCell<Vec<u128>>,
    writes: RefCell<Vec<(u128, Vec<u8>)>>,
    settled: RefCell<Vec<u64>>,
}

impl FakeGatt {
    fn camera() -> Self {
        let fake = Self::default();
        fake.set(p::CHAR_MODEL_NUMBER, b"RICOH GR III\0".to_vec());
        fake.set(p::CHAR_FIRMWARE_REVISION, b"1.90".to_vec());
        fake.set(p::CHAR_SERIAL_NUMBER, b"01234567".to_vec());
        fake.set(p::CHAR_CAMERA_POWER, vec![0]);
        // A camera that is off is, by the time a GATT read reaches it,
        // awake because Bluetooth woke it. `Capture` beside a power of
        // `Off` is a pair no real camera reports.
        fake.set(
            p::CHAR_OPERATION_MODE,
            vec![p::OperationMode::BleStartup.as_i8() as u8],
        );
        fake.set(p::CHAR_BATTERY_LEVEL, vec![0x58, 0x00]);
        fake.set(p::CHAR_NETWORK_TYPE, vec![0]);
        fake.set(p::CHAR_SSID, b"GR_4CF5C6".to_vec());
        fake.set(p::CHAR_PASSPHRASE, b"01234567".to_vec());
        fake.set(p::CHAR_FILE_TRANSFER_LIST, vec![1, 1]);
        fake
    }

    fn set(&self, uuid: u128, value: Vec<u8>) {
        self.values.borrow_mut().insert(uuid, value);
    }

    fn forget(&self, uuid: u128) {
        self.values.borrow_mut().remove(&uuid);
    }

    fn writes(&self) -> Vec<(u128, Vec<u8>)> {
        self.writes.borrow().clone()
    }

    fn reads(&self) -> Vec<u128> {
        self.reads.borrow().clone()
    }
}

impl Gatt for FakeGatt {
    fn read(&self, uuid: u128) -> Result<Vec<u8>> {
        self.reads.borrow_mut().push(uuid);
        self.values
            .borrow()
            .get(&uuid)
            .cloned()
            .ok_or(Error::MissingCharacteristic(uuid))
    }

    fn write(&self, uuid: u128, data: &[u8]) -> Result<()> {
        self.writes.borrow_mut().push((uuid, data.to_vec()));
        self.set(uuid, data.to_vec());
        Ok(())
    }

    fn available(&self) -> Vec<u128> {
        self.values.borrow().keys().copied().collect()
    }

    fn writable(&self) -> Vec<u128> {
        vec![p::CHAR_CAMERA_POWER, p::CHAR_NETWORK_TYPE]
    }

    fn settle(&self, millis: u64) {
        self.settled.borrow_mut().push(millis);
    }
}

fn session() -> Session<FakeGatt> {
    Session::new(FakeGatt::camera())
}

fn hyphenated(uuid: u128) -> String {
    uuid::Uuid::from_u128(uuid).to_string()
}

// -- discovery --------------------------------------------------------

#[test]
fn only_gr_names_are_treated_as_cameras() {
    assert!(is_camera_name(Some("GR_4CF5C6")));
    assert!(is_camera_name(Some("RICOH GR III")));
    assert!(!is_camera_name(Some("Someone's Earbuds")));
    assert!(!is_camera_name(None));
}

#[test]
fn two_cameras_is_an_error_not_a_coin_flip() {
    let candidates = vec![
        DiscoveredCamera {
            address: "AA".into(),
            name: Some("GR_1".into()),
            rssi: None,
        },
        DiscoveredCamera {
            address: "BB".into(),
            name: Some("GR_2".into()),
            rssi: None,
        },
    ];
    let err = pick_one(candidates).unwrap_err();
    assert!(err.message().contains("--address"), "{err:?}");
    assert!(matches!(err, Error::AmbiguousCamera(_)));
}

#[test]
fn no_camera_says_what_to_check() {
    let err = pick_one(Vec::new()).unwrap_err();
    assert!(err.message().contains("On anytime"), "{err:?}");
    assert!(matches!(err, Error::CameraNotFound));
}

fn found(addresses: &[&str]) -> Vec<(DiscoveredCamera, &'static str)> {
    addresses
        .iter()
        .map(|address| {
            (
                DiscoveredCamera {
                    address: (*address).into(),
                    name: Some(format!("GR_{address}")),
                    rssi: None,
                },
                "the peripheral this scan produced",
            )
        })
        .collect()
}

#[test]
fn selecting_keeps_what_the_scan_found_beside_the_camera() {
    // The whole point of the single scan: the peripheral that came back
    // with the chosen camera has to survive the choice, or connecting
    // means scanning all over again.
    let (camera, peripheral) = select_one(found(&["AA"]), None).unwrap();
    assert_eq!(camera.address, "AA");
    assert_eq!(peripheral, "the peripheral this scan produced");
}

#[test]
fn selecting_by_address_is_case_insensitive_and_picks_the_right_pair() {
    let (camera, _) = select_one(found(&["AA", "BB"]), Some("bb")).unwrap();
    assert_eq!(camera.address, "BB");
}

#[test]
fn selecting_defers_to_the_same_ambiguity_rule() {
    // Not a second copy of the rule: both errors must come from pick_one.
    let err = select_one(found(&["AA", "BB"]), None).unwrap_err();
    assert!(err.message().contains("--address"), "{err:?}");

    let err = select_one(found(&["AA"]), Some("ZZ")).unwrap_err();
    assert!(err.message().contains("On anytime"), "{err:?}");
}

#[test]
fn a_scan_keeps_cameras_and_whatever_else_is_asked_for() {
    let camera = discovered("AA".into(), Some("GR_1".into()), None, Some(-60), false).unwrap();
    assert_eq!(camera.address, "AA");
    assert_eq!(camera.name.as_deref(), Some("GR_1"));
    assert_eq!(camera.rssi, Some(-60));
    assert!(discovered("BB".into(), Some("Earbuds".into()), None, None, false).is_none());
    assert!(discovered("BB".into(), Some("Earbuds".into()), None, None, true).is_some());
    let named = discovered("CC".into(), None, Some("GR_2".into()), None, false).unwrap();
    assert_eq!(named.name.as_deref(), Some("GR_2"));
}

#[test]
fn a_refused_connection_is_retried_a_few_times_and_ever_later() {
    let mut attempt = 0;
    let mut waits = Vec::new();
    let error = loop {
        match after_refusal(attempt, "AA:BB", "refused") {
            AfterRefusal::Retry { attempt: next, wait } => {
                assert_eq!(next, attempt + 1);
                waits.push(wait);
                attempt = next;
            }
            AfterRefusal::GiveUp(error) => break error,
        }
    };
    assert_eq!(waits, vec![2000, 4000]);
    assert!(error.message().contains("AA:BB"), "{error:?}");
    assert!(error.message().contains("refused"), "{error:?}");
}

// -- identity ---------------------------------------------------------

#[test]
fn reads_identity() {
    let session = session();
    assert_eq!(session.model().unwrap(), "RICOH GR III");
    assert_eq!(session.firmware().unwrap(), "1.90");
    assert_eq!(session.serial().unwrap(), "01234567");
}

#[test]
fn a_missing_characteristic_names_itself() {
    let session = session();
    session.gatt().forget(p::CHAR_MODEL_NUMBER);
    let err = session.model().unwrap_err();
    assert!(
        err.message().contains(&hyphenated(p::CHAR_MODEL_NUMBER)),
        "{err:?}"
    );
}

// -- wake -------------------------------------------------------------

#[test]
fn wake_powers_on_a_camera_that_was_off() {
    let session = session();
    assert!(session.wake(0).unwrap());
    assert!(session
        .gatt()
        .writes()
        .contains(&(p::CHAR_CAMERA_POWER, vec![1])));
}

#[test]
fn wake_does_not_write_to_a_camera_that_is_already_on() {
    let session = session();
    session.gatt().set(p::CHAR_CAMERA_POWER, vec![1]);
    assert!(session.wake(0).unwrap());
    assert!(session.gatt().writes().is_empty());
}

#[test]
fn a_camera_in_the_users_hands_is_not_ours_to_switch_off() {
    // `Capture` means somebody is holding it. Reported `On` either way,
    // which is why power alone cannot answer this.
    let session = session();
    session.gatt().set(
        p::CHAR_OPERATION_MODE,
        vec![p::OperationMode::Capture.as_i8() as u8],
    );
    session.gatt().set(p::CHAR_CAMERA_POWER, vec![1]);
    assert!(!session.wake(0).unwrap());
}

#[test]
fn wake_still_powers_up_a_camera_it_did_not_wake() {
    // Playback: the user has it, but it must still be On for the sync.
    let session = session();
    session.gatt().set(
        p::CHAR_OPERATION_MODE,
        vec![p::OperationMode::Playback.as_i8() as u8],
    );
    session.gatt().set(p::CHAR_CAMERA_POWER, vec![2]);
    assert!(!session.wake(0).unwrap());
    assert!(session
        .gatt()
        .writes()
        .contains(&(p::CHAR_CAMERA_POWER, vec![1])));
}

#[test]
fn waking_lets_the_camera_settle() {
    let session = session();
    session.wake(1500).unwrap();
    assert_eq!(*session.gatt().settled.borrow(), vec![1500]);
    session.start_ap(3000).unwrap();
    assert_eq!(*session.gatt().settled.borrow(), vec![1500, 3000]);
}

// -- access point -----------------------------------------------------

#[test]
fn start_ap_writes_ap_mode_and_reads_the_credentials() {
    let session = session();
    let credentials = session.start_ap(0).unwrap();
    assert_eq!(credentials.ssid, "GR_4CF5C6");
    assert_eq!(credentials.passphrase, "01234567");
    assert!(session
        .gatt()
        .writes()
        .contains(&(p::CHAR_NETWORK_TYPE, vec![1])));
}

#[test]
fn credentials_are_read_after_the_ap_is_raised() {
    // Reading SSID before AP mode is up can return a stale or empty string.
    let session = session();
    session.start_ap(0).unwrap();
    let reads = session.gatt().reads();
    let network = reads
        .iter()
        .position(|u| *u == p::CHAR_NETWORK_TYPE)
        .unwrap();
    let ssid = reads.iter().position(|u| *u == p::CHAR_SSID).unwrap();
    assert!(network < ssid);
}

#[test]
fn start_ap_is_idempotent_when_the_ap_is_already_up() {
    let session = session();
    session.gatt().set(p::CHAR_NETWORK_TYPE, vec![1]);
    assert_eq!(session.start_ap(0).unwrap().ssid, "GR_4CF5C6");
    assert!(session.gatt().writes().is_empty());
}

#[test]
fn an_empty_ssid_is_refused_rather_than_handed_to_the_wifi_layer() {
    let session = session();
    session.gatt().set(p::CHAR_SSID, Vec::new());
    let err = session.start_ap(0).unwrap_err();
    assert!(err.message().contains("empty SSID"), "{err:?}");
}

#[test]
fn stop_ap_writes_off() {
    let session = session();
    session.stop_ap().unwrap();
    assert_eq!(
        session.gatt().writes(),
        vec![(p::CHAR_NETWORK_TYPE, vec![0])]
    );
}

#[test]
fn every_write_targets_a_characteristic_documented_as_writable() {
    // Writing to a read-only characteristic on a real camera is at best
    // rejected and at worst undefined, so the set of things gr3sync ever
    // writes is pinned here.
    let writable: BTreeSet<u128> = [
        p::CHAR_CAMERA_POWER,
        p::CHAR_NETWORK_TYPE,
        p::CHAR_OPERATION_MODE,
    ]
    .into_iter()
    .collect();
    let session = session();
    session.wake(0).unwrap();
    session.start_ap(0).unwrap();
    session.stop_ap().unwrap();
    session.set_power(p::CameraPower::Off).unwrap();
    for (uuid, _) in session.gatt().writes() {
        assert!(
            writable.contains(&uuid),
            "wrote to non-writable {}",
            hyphenated(uuid)
        );
    }
}

// -- telemetry --------------------------------------------------------

#[test]
fn battery_and_transfer_queue_decode_through_the_session() {
    let session = session();
    let battery = session.battery().unwrap();
    assert_eq!(battery.level, 88);
    assert!(!battery.on_ac());
    let queue = session.transfer_queue().unwrap();
    assert!(queue.not_empty && queue.changed);
}

#[test]
fn a_malformed_battery_value_is_an_error_not_a_zero() {
    let session = session();
    session.gatt().set(p::CHAR_BATTERY_LEVEL, Vec::new());
    assert!(session.battery().is_err());
}

#[test]
fn a_one_byte_battery_value_is_a_level_not_a_malformed_read() {
    // What a GR IIIx on firmware 1.41 actually returns. Rejecting it made
    // `info` report the battery as unavailable and, worse, disarmed the
    // `min_battery` floor, because a failed battery read is non-fatal.
    let session = session();
    session.gatt().set(p::CHAR_BATTERY_LEVEL, vec![0x58]);
    let battery = session.battery().unwrap();
    assert_eq!(battery.level, 88);
    assert!(!battery.on_ac());
}

#[test]
fn the_rest_of_the_session_reads_what_it_says() {
    let session = session();
    session.gatt().set(p::CHAR_STORAGE_INFORMATION, vec![0]);
    session.gatt().set(p::CHAR_BLE_ENABLE_CONDITION, vec![1]);
    assert_eq!(session.power().unwrap(), p::CameraPower::Off);
    assert_eq!(
        session.operation_mode().unwrap(),
        p::OperationMode::BleStartup
    );
    assert_eq!(
        session.ble_enable_condition().unwrap(),
        p::BleEnableCondition::OnAnytime
    );
    assert_eq!(session.network_type().unwrap(), p::NetworkType::Off);
    assert!(session.storage().unwrap().is_empty());
    let credentials = session.credentials().unwrap();
    assert_eq!(credentials.ssid, "GR_4CF5C6");
    session.set_network_type(p::NetworkType::ApMode).unwrap();
    assert_eq!(session.network_type().unwrap(), p::NetworkType::ApMode);
    session.gatt().set(p::CHAR_CAMERA_POWER, vec![9]);
    assert!(session.power().is_err());
}

#[test]
fn a_reply_fits_its_own_operation_alone() {
    let ops = [GattOp::Read(1), GattOp::Write(1, 0), GattOp::Settle(5)];
    let replies = [
        GattReply::Value(Err(Error::CameraNotFound)),
        GattReply::Written(Ok(())),
        GattReply::Settled,
    ];
    for (i, op) in ops.iter().enumerate() {
        for (j, reply) in replies.iter().enumerate() {
            assert_eq!(fits(*op, reply), i == j);
        }
    }
}

#[test]
fn an_address_gives_up_the_name_filter() {
    assert!(scans_all(Some("AA:BB")));
    assert!(!scans_all(None));
}
