//! Bluetooth Low Energy control of the camera.
//!
//! This is the layer that removes the manual step every other GR III sync tool
//! still requires: instead of picking up the camera and turning its wireless
//! LAN on by hand, gr3sync wakes the camera and raises its access point over
//! BLE, then reads back the SSID and passphrase to connect to.
//!
//! The Bluetooth surface used here is deliberately the narrowest possible:
//! connect, read a characteristic, write one **with response**, disconnect. No
//! notifications, no subscriptions, no writes-without-response.
//!
//! Everything above the transport goes through the [`Gatt`] trait, so the
//! session logic is testable without a camera in the room.
//!
//! Prerequisites on the camera, both set from its own menus:
//!
//! * the host must be **paired** with the camera (pairing is per-device and the
//!   GR III keeps essentially one partner, so pairing a laptop is likely to
//!   displace the phone running Image Sync);
//! * `BLE Enable Condition` must be `On anytime` for a powered-off camera to be
//!   reachable at all.

use crate::error;
use crate::error::{Error, ErrorView, Result, ResultView};
use crate::ids::Uuid;
use crate::procedure::{Step, StepView};
use crate::protocol as p;
use crate::text;
use vstd::prelude::*;

verus! {

/// Whether a name starts the way a GR camera's does when it advertises over
/// BLE, e.g. "GR_4CF5C6".
pub open spec fn camera_name(name: Seq<char>) -> bool {
    ||| text::has_prefix(name, "GR_"@)
    ||| text::has_prefix(name, "RICOH GR"@)
    ||| text::has_prefix(name, "GR III"@)
    ||| text::has_prefix(name, "GRIII"@)
}

pub fn is_camera_name(name: Option<&str>) -> (yes: bool)
    ensures
        yes == (name matches Some(n) && camera_name(n@)),
{
    match name {
        Some(n) => text::strip(n, "GR_").is_some() || text::strip(n, "RICOH GR").is_some()
            || text::strip(n, "GR III").is_some() || text::strip(n, "GRIII").is_some(),
        None => false,
    }
}

#[derive(Debug)]
pub struct DiscoveredCamera {
    pub address: String,
    pub name: Option<String>,
    pub rssi: Option<i16>,
}

/// A camera that a scan found, mathematically.
#[verifier::ext_equal]
pub struct DiscoveredView {
    pub address: Seq<char>,
    pub name: Option<Seq<char>>,
    pub rssi: Option<i16>,
}

impl View for DiscoveredCamera {
    type V = DiscoveredView;

    open spec fn view(&self) -> DiscoveredView {
        DiscoveredView { address: self.address@, name: self.name.deep_view(), rssi: self.rssi }
    }
}

impl DeepView for DiscoveredCamera {
    type V = DiscoveredView;

    open spec fn deep_view(&self) -> DiscoveredView {
        self@
    }
}

/// What a scan makes of one advertisement: a camera goes by its local name, or
/// else by the name it advertises, and only a camera's name is let through
/// unless all devices are wanted.
pub open spec fn sighting(
    address: Seq<char>,
    local_name: Option<Seq<char>>,
    advertisement_name: Option<Seq<char>>,
    rssi: Option<i16>,
    all_devices: bool,
) -> Option<DiscoveredView> {
    let name = if local_name is Some {
        local_name
    } else {
        advertisement_name
    };
    if all_devices || (name is Some && camera_name(name.unwrap())) {
        Some(DiscoveredView { address, name, rssi })
    } else {
        None
    }
}

/// What a scan makes of one advertisement.
///
/// With `all_devices` the name filter is dropped, which is the escape hatch for
/// a camera renamed away from the factory `GR_XXXXXX`.
pub fn discovered(
    address: String,
    local_name: Option<String>,
    advertisement_name: Option<String>,
    rssi: Option<i16>,
    all_devices: bool,
) -> (camera: Option<DiscoveredCamera>)
    ensures
        camera.deep_view() == sighting(
            address@,
            local_name.deep_view(),
            advertisement_name.deep_view(),
            rssi,
            all_devices,
        ),
{
    let name = match local_name {
        Some(name) => Some(name),
        None => advertisement_name,
    };
    let known = match &name {
        Some(name) => is_camera_name(Some(name.as_str())),
        None => false,
    };
    if all_devices || known {
        Some(DiscoveredCamera { address, name, rssi })
    } else {
        None
    }
}

/// Whether a scan for the camera to connect to lets any device through: with an
/// address the name does not matter.
pub fn scans_all(address: Option<&str>) -> (yes: bool)
    ensures
        yes == (address is Some),
{
    address.is_some()
}

/// How a camera is named to a person who has to choose.
pub open spec fn camera_label(camera: DiscoveredView) -> Seq<char> {
    (match camera.name {
        Some(name) => name,
        None => "?"@,
    }) + " ("@ + camera.address + ")"@
}

pub open spec fn camera_labels(cameras: Seq<DiscoveredView>) -> Seq<char> {
    text::joined(cameras.map_values(|camera: DiscoveredView| camera_label(camera)), ", "@)
}

/// The rule for choosing a camera: there is exactly one.
pub open spec fn picked(candidates: Seq<DiscoveredView>) -> ResultView<DiscoveredView> {
    if candidates.len() == 0 {
        Err(ErrorView::CameraNotFound)
    } else if candidates.len() == 1 {
        Ok(candidates[0])
    } else {
        Err(ErrorView::AmbiguousCamera(camera_labels(candidates)))
    }
}

fn labels_of(cameras: &Vec<DiscoveredCamera>) -> (labels: String)
    ensures
        labels@ == camera_labels(cameras.deep_view()),
{
    let mut labels: Vec<String> = Vec::new();
    let mut i: usize = 0;
    while i < cameras.len()
        invariant
            i <= cameras@.len(),
            labels@.len() == i,
            forall|j: int| 0 <= j < i ==> (#[trigger] labels@[j])@ == camera_label(cameras@[j]@),
        decreases cameras@.len() - i,
    {
        let mut label = match &cameras[i].name {
            Some(name) => name.clone(),
            None => "?".to_owned(),
        };
        label.append(" (");
        label.append(cameras[i].address.as_str());
        label.append(")");
        labels.push(label);
        i += 1;
    }
    assert(labels.deep_view() == cameras.deep_view().map_values(
        |camera: DiscoveredView| camera_label(camera),
    ));
    text::join(&labels, ", ")
}

/// Choose the one camera there is, failing loudly when it is ambiguous.
pub fn pick_one(candidates: Vec<DiscoveredCamera>) -> (camera: Result<DiscoveredCamera>)
    ensures
        error::seen(camera) == picked(candidates.deep_view()),
{
    let mut candidates = candidates;
    if candidates.len() == 0 {
        Err(Error::CameraNotFound)
    } else if candidates.len() == 1 {
        Ok(candidates.remove(0))
    } else {
        Err(Error::AmbiguousCamera(labels_of(&candidates)))
    }
}

/// The first camera at `address`, from number `from` on.
pub open spec fn position_at(found: Seq<DiscoveredView>, address: Seq<char>, from: nat) -> Option<
    int,
>
    decreases found.len() - from,
{
    if from >= found.len() {
        None
    } else if text::same_ignoring_case(found[from as int].address, address) {
        Some(from as int)
    } else {
        position_at(found, address, from + 1)
    }
}

/// Which of the cameras found is meant: the first at the address where one is
/// given, else the only one.
pub open spec fn selected(found: Seq<DiscoveredView>, address: Option<Seq<char>>) -> ResultView<
    int,
> {
    match address {
        Some(wanted) => match position_at(found, wanted, 0) {
            Some(i) => Ok(i),
            None => Err(ErrorView::CameraNotFound),
        },
        None => match picked(found) {
            Ok(_) => Ok(0),
            Err(error) => Err(error),
        },
    }
}

/// What the scan found, without what it keeps beside each camera.
pub open spec fn cameras_in<T>(found: Seq<(DiscoveredCamera, T)>) -> Seq<DiscoveredView> {
    found.map_values(|pair: (DiscoveredCamera, T)| pair.0@)
}

/// Apply [`pick_one`]'s rule to scan results that carry something alongside.
///
/// Generic over the companion so the selection can be exercised without a
/// radio, and so the ambiguity rule stays defined in exactly one place.
pub fn select_one<T>(found: Vec<(DiscoveredCamera, T)>, address: Option<&str>) -> (pair: Result<
    (DiscoveredCamera, T),
>)
    ensures
        match pair {
            Ok(pair) => selected(cameras_in(found@), address.deep_view()) matches Ok(i) && 0 <= i
                < found@.len() && pair == found@[i],
            Err(error) => selected(cameras_in(found@), address.deep_view()) == Err::<int, ErrorView>(
                error@,
            ),
        },
{
    let ghost views = cameras_in(found@);
    let mut rest = found;
    match address {
        Some(wanted) => {
            let lowered = text::to_ascii_lower(wanted);
            let mut i: usize = 0;
            while i < rest.len()
                invariant
                    i <= rest@.len(),
                    rest@ == found@,
                    views == cameras_in(found@),
                    lowered@ == text::ascii_lower(wanted@),
                    position_at(views, wanted@, 0) == position_at(views, wanted@, i as nat),
                    address.deep_view() == Some(wanted@),
                decreases rest@.len() - i,
            {
                let address = text::to_ascii_lower(rest[i].0.address.as_str());
                assert(views[i as int] == rest@[i as int].0@);
                if text::same(address.as_str(), lowered.as_str()) {
                    return Ok(rest.swap_remove(i));
                }
                i += 1;
            }
            Err(Error::CameraNotFound)
        },
        None => {
            let mut candidates: Vec<DiscoveredCamera> = Vec::new();
            let mut i: usize = 0;
            while i < rest.len()
                invariant
                    i <= rest@.len(),
                    rest@ == found@,
                    views == cameras_in(found@),
                    candidates@.len() == i,
                    forall|j: int| 0 <= j < i ==> (#[trigger] candidates@[j])@ == views[j],
                decreases rest@.len() - i,
            {
                let camera = &rest[i].0;
                candidates.push(
                    DiscoveredCamera {
                        address: camera.address.clone(),
                        name: camera.name.clone(),
                        rssi: camera.rssi,
                    },
                );
                i += 1;
            }
            assert(candidates.deep_view() == views);
            match pick_one(candidates) {
                Ok(_) => Ok(rest.swap_remove(0)),
                Err(error) => Err(error),
            }
        },
    }
}

/// How many times to try the initial GATT connect.
///
/// A real GR IIIx refused roughly one connect in three, always on the first
/// attempt after a previous session had disconnected and always fine when
/// tried again. One shot is not enough, and the path that puts the camera back
/// after a sync only gets one chance.
pub const CONNECT_ATTEMPTS: u32 = 3;

/// How much longer to wait before each further attempt, in milliseconds.
pub const CONNECT_BACKOFF: u64 = 2000;

/// What to do after the camera refused a connection.
pub enum AfterRefusal {
    /// Disconnect, wait, and connect again.
    Retry { attempt: u32, wait: u64 },
    GiveUp(Error),
}

#[verifier::ext_equal]
pub enum AfterRefusalView {
    Retry { attempt: u32, wait: u64 },
    GiveUp(ErrorView),
}

impl View for AfterRefusal {
    type V = AfterRefusalView;

    open spec fn view(&self) -> AfterRefusalView {
        match *self {
            AfterRefusal::Retry { attempt, wait } => AfterRefusalView::Retry { attempt, wait },
            AfterRefusal::GiveUp(error) => AfterRefusalView::GiveUp(error@),
        }
    }
}

/// What follows when attempt number `attempt`, counted from zero, was refused.
pub open spec fn refusal(attempt: u32, address: Seq<char>, reason: Seq<char>) -> AfterRefusalView {
    if attempt + 1 < CONNECT_ATTEMPTS {
        AfterRefusalView::Retry {
            attempt: (attempt + 1) as u32,
            wait: (2000 * (attempt + 1)) as u64,
        }
    } else {
        AfterRefusalView::GiveUp(
            ErrorView::Ble(
                "could not connect to "@ + address + " after 3 attempts: "@ + reason,
            ),
        )
    }
}

/// Decide what follows a refused connection.
///
/// The observed failure is `Not connected` on the first attempt after an
/// earlier session, which suggests the host still considers the previous link
/// open. So each retry disconnects first, then waits a little longer.
pub fn after_refusal(attempt: u32, address: &str, reason: &str) -> (next: AfterRefusal)
    ensures
        next@ == refusal(attempt, address@, reason@),
{
    if attempt < CONNECT_ATTEMPTS - 1 {
        AfterRefusal::Retry {
            attempt: attempt + 1,
            wait: CONNECT_BACKOFF * (attempt as u64 + 1),
        }
    } else {
        let mut detail = "could not connect to ".to_owned();
        detail.append(address);
        detail.append(" after 3 attempts: ");
        detail.append(reason);
        AfterRefusal::GiveUp(Error::Ble(detail))
    }
}

/// A connection is tried no more than [`CONNECT_ATTEMPTS`] times, each retry waits
/// longer than the one before by the same amount, and what is reported in the end is
/// why the last one was refused.
pub proof fn lemma_retries_are_bounded(attempt: u32, address: Seq<char>, reason: Seq<char>)
    ensures
        match refusal(attempt, address, reason) {
            AfterRefusalView::Retry { attempt: next, wait } => {
                &&& next == attempt + 1
                &&& next < CONNECT_ATTEMPTS
                &&& wait == CONNECT_BACKOFF * next
            },
            AfterRefusalView::GiveUp(error) => attempt + 1 >= CONNECT_ATTEMPTS && (
            error matches ErrorView::Ble(said) && said.len() >= reason.len() && said.skip(
                said.len() - reason.len(),
            ) == reason),
        },
{
    let said = "could not connect to "@ + address + " after 3 attempts: "@ + reason;
    assert(said.skip(said.len() - reason.len()) =~= reason);
}

/// Where an address is given, the camera chosen has it, however many others
/// are in range; where none is given, there was no other.
pub proof fn lemma_selection(found: Seq<DiscoveredView>, address: Option<Seq<char>>)
    ensures
        selected(found, address) matches Ok(i) ==> {
            &&& 0 <= i < found.len()
            &&& address matches Some(wanted) ==> text::same_ignoring_case(found[i].address, wanted)
            &&& address is None ==> found.len() == 1
        },
        address matches Some(wanted) ==> ((exists|i: int|
            0 <= i < found.len() && text::same_ignoring_case(
                #[trigger] found[i].address,
                wanted,
            )) <==> selected(found, address) is Ok),
{
    if let Some(wanted) = address {
        lemma_position(found, wanted, 0);
    }
}

proof fn lemma_position(found: Seq<DiscoveredView>, wanted: Seq<char>, from: nat)
    ensures
        match position_at(found, wanted, from) {
            Some(i) => from <= i < found.len() && text::same_ignoring_case(
                found[i].address,
                wanted,
            ),
            None => forall|i: int|
                from <= i < found.len() ==> !text::same_ignoring_case(
                    #[trigger] found[i].address,
                    wanted,
                ),
        },
    decreases found.len() - from,
{
    if from < found.len() {
        lemma_position(found, wanted, from + 1);
    }
}

/// The whole Bluetooth surface gr3sync needs.
///
/// Implemented once against a Bluetooth stack and once against an in-memory
/// table in the tests.
pub trait Gatt {
    fn read(&self, uuid: Uuid) -> Result<Vec<u8>>;

    fn write(&self, uuid: Uuid, data: &[u8]) -> Result<()>;

    /// Which characteristics the peer actually exposes. Used by `doctor` to
    /// report a camera whose GATT table does not match the documented profile.
    fn available(&self) -> Vec<Uuid>;

    /// Which of them the peer accepts writes on.
    fn writable(&self) -> Vec<Uuid>;

    /// Give the camera this many milliseconds to act on what was written.
    fn settle(&self, millis: u64);
}

/// One thing to do with the camera.
#[derive(Debug, Clone, Copy, PartialEq, Eq, Structural)]
pub enum GattOp {
    Read(Uuid),
    /// Write one byte.
    Write(Uuid, u8),
    /// Wait this many milliseconds.
    Settle(u64),
}

impl DeepView for GattOp {
    type V = GattOp;

    open spec fn deep_view(&self) -> GattOp {
        *self
    }
}

/// What came back from it.
#[derive(Debug)]
pub enum GattReply {
    Value(Result<Vec<u8>>),
    Written(Result<()>),
    Settled,
}

#[verifier::ext_equal]
pub enum GattReplyView {
    Value(ResultView<Seq<u8>>),
    Written(ResultView<()>),
    Settled,
}

impl View for GattReply {
    type V = GattReplyView;

    open spec fn view(&self) -> GattReplyView {
        match *self {
            GattReply::Value(result) => GattReplyView::Value(
                match result {
                    Ok(raw) => Ok(raw@),
                    Err(error) => Err(error@),
                },
            ),
            GattReply::Written(result) => GattReplyView::Written(error::seen(result)),
            GattReply::Settled => GattReplyView::Settled,
        }
    }
}

/// Whether a reply is one that the operation can have.
pub open spec fn replies_to(op: GattOp, reply: GattReplyView) -> bool {
    match op {
        GattOp::Read(_) => reply is Value,
        GattOp::Write(_, _) => reply is Written,
        GattOp::Settle(_) => reply is Settled,
    }
}

/// Whether a reply is one that the operation can have.
pub fn fits(op: GattOp, reply: &GattReply) -> (yes: bool)
    ensures
        yes == replies_to(op, reply@),
{
    match (op, reply) {
        (GattOp::Read(_), GattReply::Value(_)) => true,
        (GattOp::Write(_, _), GattReply::Written(_)) => true,
        (GattOp::Settle(_), GattReply::Settled) => true,
        _ => false,
    }
}

/// Whether a reply is one that the transport gives to the operation.
pub open spec fn answers<G: Gatt>(gatt: &G, op: GattOp, reply: GattReply) -> bool {
    match (op, reply) {
        (GattOp::Read(uuid), GattReply::Value(result)) => call_ensures(
            G::read,
            (gatt, uuid),
            result,
        ),
        (GattOp::Write(uuid, byte), GattReply::Written(result)) => exists|data: &[u8]|
            data@ == seq![byte] && #[trigger] call_ensures(G::write, (gatt, uuid, data), result),
        (GattOp::Settle(millis), GattReply::Settled) => call_ensures(
            G::settle,
            (gatt, millis),
            (),
        ),
        _ => false,
    }
}

/// Carry out one operation.
fn perform<G: Gatt>(gatt: &G, op: GattOp) -> (reply: GattReply)
    ensures
        answers(gatt, op, reply),
        replies_to(op, reply@),
{
    match op {
        GattOp::Read(uuid) => GattReply::Value(gatt.read(uuid)),
        GattOp::Write(uuid, byte) => {
            let bytes: Vec<u8> = vec![byte];
            let data = bytes.as_slice();
            assert(data@ == seq![byte]);
            GattReply::Written(gatt.write(uuid, data))
        },
        GattOp::Settle(millis) => {
            gatt.settle(millis);
            GattReply::Settled
        },
    }
}

/// What a read gave back, mathematically.
pub open spec fn raw_seen(reply: Result<Vec<u8>>) -> ResultView<Seq<u8>> {
    match reply {
        Ok(raw) => Ok(raw@),
        Err(error) => Err(error@),
    }
}

/// The text that a read gave.
pub open spec fn text_in(reply: ResultView<Seq<u8>>) -> ResultView<Seq<char>> {
    match reply {
        Ok(raw) => Ok(p::decoded_text(raw)),
        Err(error) => Err(error),
    }
}

pub fn text_from(reply: Result<Vec<u8>>) -> (text: Result<String>)
    ensures
        error::seen(text) == text_in(raw_seen(reply)),
{
    match reply {
        Ok(raw) => Ok(p::decode_utf8(raw.as_slice())),
        Err(error) => Err(error),
    }
}

/// What a read of `Camera Power` says.
pub open spec fn power_in(reply: ResultView<Seq<u8>>) -> ResultView<p::CameraPower> {
    match reply {
        Ok(raw) => match p::sint8_value(p::CHAR_CAMERA_POWER, raw) {
            Ok(value) => p::CameraPower::read_back(value),
            Err(error) => Err(error),
        },
        Err(error) => Err(error),
    }
}

pub fn power_from(reply: Result<Vec<u8>>) -> (value: Result<p::CameraPower>)
    ensures
        error::seen(value) == power_in(raw_seen(reply)),
{
    match reply {
        Ok(raw) => match p::decode_sint8(p::CHAR_CAMERA_POWER, raw.as_slice()) {
            Ok(value) => p::CameraPower::from_i8(value),
            Err(error) => Err(error),
        },
        Err(error) => Err(error),
    }
}

/// What a read of `Operation Mode` says.
pub open spec fn mode_in(reply: ResultView<Seq<u8>>) -> ResultView<p::OperationMode> {
    match reply {
        Ok(raw) => match p::sint8_value(p::CHAR_OPERATION_MODE, raw) {
            Ok(value) => p::OperationMode::read_back(value),
            Err(error) => Err(error),
        },
        Err(error) => Err(error),
    }
}

pub fn mode_from(reply: Result<Vec<u8>>) -> (value: Result<p::OperationMode>)
    ensures
        error::seen(value) == mode_in(raw_seen(reply)),
{
    match reply {
        Ok(raw) => match p::decode_sint8(p::CHAR_OPERATION_MODE, raw.as_slice()) {
            Ok(value) => p::OperationMode::from_i8(value),
            Err(error) => Err(error),
        },
        Err(error) => Err(error),
    }
}

/// What a read of `Network Type` says.
pub open spec fn network_in(reply: ResultView<Seq<u8>>) -> ResultView<p::NetworkType> {
    match reply {
        Ok(raw) => match p::sint8_value(p::CHAR_NETWORK_TYPE, raw) {
            Ok(value) => p::NetworkType::read_back(value),
            Err(error) => Err(error),
        },
        Err(error) => Err(error),
    }
}

pub fn network_from(reply: Result<Vec<u8>>) -> (value: Result<p::NetworkType>)
    ensures
        error::seen(value) == network_in(raw_seen(reply)),
{
    match reply {
        Ok(raw) => match p::decode_sint8(p::CHAR_NETWORK_TYPE, raw.as_slice()) {
            Ok(value) => p::NetworkType::from_i8(value),
            Err(error) => Err(error),
        },
        Err(error) => Err(error),
    }
}

/// What a read of `BLE Enable Condition` says.
pub open spec fn condition_in(reply: ResultView<Seq<u8>>) -> ResultView<p::BleEnableCondition> {
    match reply {
        Ok(raw) => match p::sint8_value(p::CHAR_BLE_ENABLE_CONDITION, raw) {
            Ok(value) => p::BleEnableCondition::read_back(value),
            Err(error) => Err(error),
        },
        Err(error) => Err(error),
    }
}

pub fn condition_from(reply: Result<Vec<u8>>) -> (value: Result<p::BleEnableCondition>)
    ensures
        error::seen(value) == condition_in(raw_seen(reply)),
{
    match reply {
        Ok(raw) => match p::decode_sint8(p::CHAR_BLE_ENABLE_CONDITION, raw.as_slice()) {
            Ok(value) => p::BleEnableCondition::from_i8(value),
            Err(error) => Err(error),
        },
        Err(error) => Err(error),
    }
}

/// What a read of `Battery Level` says.
pub open spec fn battery_in(reply: ResultView<Seq<u8>>) -> ResultView<p::BatteryLevel> {
    match reply {
        Ok(raw) => p::battery_value(raw),
        Err(error) => Err(error),
    }
}

pub fn battery_from(reply: Result<Vec<u8>>) -> (value: Result<p::BatteryLevel>)
    ensures
        error::seen(value) == battery_in(raw_seen(reply)),
{
    match reply {
        Ok(raw) => p::decode_battery_level(raw.as_slice()),
        Err(error) => Err(error),
    }
}

/// What a read of `Storage Information` says.
pub open spec fn storage_in(reply: ResultView<Seq<u8>>) -> ResultView<Seq<p::StorageSlot>> {
    match reply {
        Ok(raw) => Ok(p::storage_slots(raw)),
        Err(error) => Err(error),
    }
}

pub fn storage_from(reply: Result<Vec<u8>>) -> (value: Result<Vec<p::StorageSlot>>)
    ensures
        error::seen(value) == storage_in(raw_seen(reply)),
{
    match reply {
        Ok(raw) => {
            let slots = p::decode_storage_information(raw.as_slice());
            assert(slots.deep_view() == slots@);
            Ok(slots)
        },
        Err(error) => Err(error),
    }
}

/// What a read of `File Transfer List` says.
pub open spec fn queue_in(reply: ResultView<Seq<u8>>) -> ResultView<p::FileTransferList> {
    match reply {
        Ok(raw) => p::transfer_value(raw),
        Err(error) => Err(error),
    }
}

pub fn queue_from(reply: Result<Vec<u8>>) -> (value: Result<p::FileTransferList>)
    ensures
        error::seen(value) == queue_in(raw_seen(reply)),
{
    match reply {
        Ok(raw) => p::decode_file_transfer_list(raw.as_slice()),
        Err(error) => Err(error),
    }
}

#[derive(Debug)]
pub struct WlanCredentials {
    pub ssid: String,
    pub passphrase: String,
}

/// How to join an access point, mathematically.
#[verifier::ext_equal]
pub struct CredentialsView {
    pub ssid: Seq<char>,
    pub passphrase: Seq<char>,
}

impl View for WlanCredentials {
    type V = CredentialsView;

    open spec fn view(&self) -> CredentialsView {
        CredentialsView { ssid: self.ssid@, passphrase: self.passphrase@ }
    }
}

impl DeepView for WlanCredentials {
    type V = CredentialsView;

    open spec fn deep_view(&self) -> CredentialsView {
        self@
    }
}

/// Bringing the camera up, told apart by what is being waited for.
///
/// `ours` says that Bluetooth is why the camera is awake, which the caller
/// needs to decide whether to power the camera down afterwards: a camera the
/// user switched on by hand must not be turned off by a background sync.
///
/// `Camera Power` cannot answer it. Connecting over BLE wakes the camera, so by
/// the time the characteristic can be read it says `On` no matter what state
/// the body was in. `Operation Mode` does answer it: the camera reports
/// `BleStartup` when Bluetooth is why it is awake, and `Capture` when someone
/// is holding it.
#[derive(Debug, Clone, Copy, PartialEq, Eq, Structural)]
pub enum Wake {
    Mode,
    Power { ours: bool },
    SwitchOn { ours: bool },
    Settle { ours: bool },
}

impl DeepView for Wake {
    type V = Wake;

    open spec fn deep_view(&self) -> Wake {
        *self
    }
}

/// What each state of waking asks of the camera.
pub open spec fn wake_op(state: Wake, settle: u64) -> GattOp {
    match state {
        Wake::Mode => GattOp::Read(p::CHAR_OPERATION_MODE),
        Wake::Power { .. } => GattOp::Read(p::CHAR_CAMERA_POWER),
        Wake::SwitchOn { .. } => GattOp::Write(p::CHAR_CAMERA_POWER, 1),
        Wake::Settle { .. } => GattOp::Settle(settle),
    }
}

/// How waking goes on: a camera that is not on is switched on and given time,
/// and the answer is whether Bluetooth had started it.
pub open spec fn wake_next(state: Wake, reply: GattReplyView) -> StepView<Wake, bool> {
    match (state, reply) {
        (Wake::Mode, GattReplyView::Value(raw)) => match mode_in(raw) {
            Ok(mode) => StepView::More(Wake::Power { ours: mode == p::OperationMode::BleStartup }),
            Err(error) => StepView::Done(Err(error)),
        },
        (Wake::Power { ours }, GattReplyView::Value(raw)) => match power_in(raw) {
            Ok(power) => if power == p::CameraPower::On {
                StepView::Done(Ok(ours))
            } else {
                StepView::More(Wake::SwitchOn { ours })
            },
            Err(error) => StepView::Done(Err(error)),
        },
        (Wake::SwitchOn { ours }, GattReplyView::Written(written)) => match written {
            Ok(_) => StepView::More(Wake::Settle { ours }),
            Err(error) => StepView::Done(Err(error)),
        },
        (Wake::Settle { ours }, _) => StepView::Done(Ok(ours)),
        _ => StepView::More(state),
    }
}

/// How far waking is from its end.
pub open spec fn wake_rank(state: Wake) -> nat {
    match state {
        Wake::Mode => 4,
        Wake::Power { .. } => 3,
        Wake::SwitchOn { .. } => 2,
        Wake::Settle { .. } => 1,
    }
}

impl Wake {
    /// What to ask of the camera.
    pub fn op(&self, settle: u64) -> (op: GattOp)
        ensures
            op == wake_op(*self, settle),
    {
        match self {
            Wake::Mode => GattOp::Read(p::CHAR_OPERATION_MODE),
            Wake::Power { .. } => GattOp::Read(p::CHAR_CAMERA_POWER),
            Wake::SwitchOn { .. } => GattOp::Write(p::CHAR_CAMERA_POWER, 1),
            Wake::Settle { .. } => GattOp::Settle(settle),
        }
    }

    /// Go on from the camera's reply.
    pub fn next(self, reply: GattReply) -> (step: Step<Wake, bool>)
        requires
            replies_to(wake_op(self, 0), reply@),
        ensures
            step@ == wake_next(self, reply@),
            step@ matches StepView::More(state) ==> wake_rank(state) < wake_rank(self),
    {
        match (self, reply) {
            (Wake::Mode, GattReply::Value(raw)) => match mode_from(raw) {
                Ok(mode) => Step::More(Wake::Power { ours: mode == p::OperationMode::BleStartup }),
                Err(error) => Step::Done(Err(error)),
            },
            (Wake::Power { ours }, GattReply::Value(raw)) => match power_from(raw) {
                Ok(power) => if power == p::CameraPower::On {
                    Step::Done(Ok(ours))
                } else {
                    Step::More(Wake::SwitchOn { ours })
                },
                Err(error) => Step::Done(Err(error)),
            },
            (Wake::SwitchOn { ours }, GattReply::Written(written)) => match written {
                Ok(_) => Step::More(Wake::Settle { ours }),
                Err(error) => Step::Done(Err(error)),
            },
            (Wake::Settle { ours }, _) => Step::Done(Ok(ours)),
            (state, _) => Step::More(state),
        }
    }
}

/// Raising the access point and reading how to join it, told apart by what is
/// being waited for.
///
/// Credentials are read *after* the AP is up: on a camera whose wireless LAN
/// has never been enabled, reading them first can return stale or empty
/// strings.
#[derive(Debug)]
pub enum StartAp {
    Type,
    Raise,
    Settle,
    Ssid,
    Passphrase { ssid: String },
}

#[verifier::ext_equal]
pub enum StartApView {
    Type,
    Raise,
    Settle,
    Ssid,
    Passphrase { ssid: Seq<char> },
}

impl View for StartAp {
    type V = StartApView;

    open spec fn view(&self) -> StartApView {
        match *self {
            StartAp::Type => StartApView::Type,
            StartAp::Raise => StartApView::Raise,
            StartAp::Settle => StartApView::Settle,
            StartAp::Ssid => StartApView::Ssid,
            StartAp::Passphrase { ssid } => StartApView::Passphrase { ssid: ssid@ },
        }
    }
}

impl DeepView for StartAp {
    type V = StartApView;

    open spec fn deep_view(&self) -> StartApView {
        self@
    }
}

/// What each state of raising the access point asks of the camera.
pub open spec fn start_ap_op(state: StartApView, settle: u64) -> GattOp {
    match state {
        StartApView::Type => GattOp::Read(p::CHAR_NETWORK_TYPE),
        StartApView::Raise => GattOp::Write(p::CHAR_NETWORK_TYPE, 1),
        StartApView::Settle => GattOp::Settle(settle),
        StartApView::Ssid => GattOp::Read(p::CHAR_SSID),
        StartApView::Passphrase { .. } => GattOp::Read(p::CHAR_PASSPHRASE),
    }
}

/// How raising the access point goes on: AP mode is written where it is not on
/// yet, then the credentials are read, and an empty SSID is refused.
pub open spec fn start_ap_next(state: StartApView, reply: GattReplyView) -> StepView<
    StartApView,
    CredentialsView,
> {
    match (state, reply) {
        (StartApView::Type, GattReplyView::Value(raw)) => match network_in(raw) {
            Ok(network) => if network == p::NetworkType::ApMode {
                StepView::More(StartApView::Ssid)
            } else {
                StepView::More(StartApView::Raise)
            },
            Err(error) => StepView::Done(Err(error)),
        },
        (StartApView::Raise, GattReplyView::Written(written)) => match written {
            Ok(_) => StepView::More(StartApView::Settle),
            Err(error) => StepView::Done(Err(error)),
        },
        (StartApView::Settle, _) => StepView::More(StartApView::Ssid),
        (StartApView::Ssid, GattReplyView::Value(raw)) => match text_in(raw) {
            Ok(ssid) => StepView::More(StartApView::Passphrase { ssid }),
            Err(error) => StepView::Done(Err(error)),
        },
        (StartApView::Passphrase { ssid }, GattReplyView::Value(raw)) => match text_in(raw) {
            Ok(passphrase) => if ssid.len() == 0 {
                StepView::Done(
                    Err(
                        ErrorView::Ble("camera reported an empty SSID after enabling AP mode"@),
                    ),
                )
            } else {
                StepView::Done(Ok(CredentialsView { ssid, passphrase }))
            },
            Err(error) => StepView::Done(Err(error)),
        },
        _ => StepView::More(state),
    }
}

/// How far raising the access point is from its end.
pub open spec fn start_ap_rank(state: StartApView) -> nat {
    match state {
        StartApView::Type => 5,
        StartApView::Raise => 4,
        StartApView::Settle => 3,
        StartApView::Ssid => 2,
        StartApView::Passphrase { .. } => 1,
    }
}

impl StartAp {
    /// What to ask of the camera.
    pub fn op(&self, settle: u64) -> (op: GattOp)
        ensures
            op == start_ap_op(self@, settle),
    {
        match self {
            StartAp::Type => GattOp::Read(p::CHAR_NETWORK_TYPE),
            StartAp::Raise => GattOp::Write(p::CHAR_NETWORK_TYPE, 1),
            StartAp::Settle => GattOp::Settle(settle),
            StartAp::Ssid => GattOp::Read(p::CHAR_SSID),
            StartAp::Passphrase { .. } => GattOp::Read(p::CHAR_PASSPHRASE),
        }
    }

    /// Go on from the camera's reply.
    pub fn next(self, reply: GattReply) -> (step: Step<StartAp, WlanCredentials>)
        requires
            replies_to(start_ap_op(self@, 0), reply@),
        ensures
            step@ == start_ap_next(self@, reply@),
            step@ matches StepView::More(state) ==> start_ap_rank(state) < start_ap_rank(self@),
    {
        match (self, reply) {
            (StartAp::Type, GattReply::Value(raw)) => match network_from(raw) {
                Ok(network) => if network == p::NetworkType::ApMode {
                    Step::More(StartAp::Ssid)
                } else {
                    Step::More(StartAp::Raise)
                },
                Err(error) => Step::Done(Err(error)),
            },
            (StartAp::Raise, GattReply::Written(written)) => match written {
                Ok(_) => Step::More(StartAp::Settle),
                Err(error) => Step::Done(Err(error)),
            },
            (StartAp::Settle, _) => Step::More(StartAp::Ssid),
            (StartAp::Ssid, GattReply::Value(raw)) => match text_from(raw) {
                Ok(ssid) => Step::More(StartAp::Passphrase { ssid }),
                Err(error) => Step::Done(Err(error)),
            },
            (StartAp::Passphrase { ssid }, GattReply::Value(raw)) => match text_from(raw) {
                Ok(passphrase) => if ssid.as_str().unicode_len() == 0 {
                    Step::Done(
                        Err(
                            Error::Ble(
                                "camera reported an empty SSID after enabling AP mode".to_owned(),
                            ),
                        ),
                    )
                } else {
                    Step::Done(Ok(WlanCredentials { ssid, passphrase }))
                },
                Err(error) => Step::Done(Err(error)),
            },
            (state, _) => Step::More(state),
        }
    }
}

/// What comes of waking a camera that gives these replies, one after the
/// other; nothing where they are not the replies it gives.
pub open spec fn wake_result<G: Gatt>(
    gatt: &G,
    settle: u64,
    state: Wake,
    replies: Seq<GattReply>,
) -> Option<ResultView<bool>>
    decreases replies.len(),
{
    if replies.len() == 0 || !answers(gatt, wake_op(state, settle), replies[0]) {
        None
    } else {
        match wake_next(state, replies[0]@) {
            StepView::More(next) => wake_result(gatt, settle, next, replies.skip(1)),
            StepView::Done(result) => if replies.len() == 1 {
                Some(result)
            } else {
                None
            },
        }
    }
}

/// What comes of raising the access point of a camera that gives these
/// replies, one after the other; nothing where they are not the replies it
/// gives.
pub open spec fn start_ap_result<G: Gatt>(
    gatt: &G,
    settle: u64,
    state: StartApView,
    replies: Seq<GattReply>,
) -> Option<ResultView<CredentialsView>>
    decreases replies.len(),
{
    if replies.len() == 0 || !answers(gatt, start_ap_op(state, settle), replies[0]) {
        None
    } else {
        match start_ap_next(state, replies[0]@) {
            StepView::More(next) => start_ap_result(gatt, settle, next, replies.skip(1)),
            StepView::Done(result) => if replies.len() == 1 {
                Some(result)
            } else {
                None
            },
        }
    }
}

fn drive_wake<G: Gatt>(gatt: &G, settle: u64, state: Wake) -> (result: Result<bool>)
    ensures
        exists|replies: Seq<GattReply>| #[trigger]
            wake_result(gatt, settle, state, replies) == Some(error::seen(result)),
    decreases wake_rank(state),
{
    let reply = perform(gatt, state.op(settle));
    let ghost first = reply;
    match state.next(reply) {
        Step::More(next) => {
            let result = drive_wake(gatt, settle, next);
            proof {
                let later = choose|replies: Seq<GattReply>| #[trigger]
                    wake_result(gatt, settle, next, replies) == Some(error::seen(result));
                let replies = seq![first] + later;
                assert(replies.skip(1) == later);
                assert(wake_result(gatt, settle, state, replies) == Some(error::seen(result)));
            }
            result
        },
        Step::Done(result) => {
            assert(wake_result(gatt, settle, state, seq![first]) == Some(error::seen(result)));
            result
        },
    }
}

fn drive_start_ap<G: Gatt>(gatt: &G, settle: u64, state: StartAp) -> (result: Result<
    WlanCredentials,
>)
    ensures
        exists|replies: Seq<GattReply>| #[trigger]
            start_ap_result(gatt, settle, state@, replies) == Some(error::seen(result)),
    decreases start_ap_rank(state@),
{
    let reply = perform(gatt, state.op(settle));
    let ghost first = reply;
    match state.next(reply) {
        Step::More(next) => {
            let ghost after = next@;
            let result = drive_start_ap(gatt, settle, next);
            proof {
                let later = choose|replies: Seq<GattReply>| #[trigger]
                    start_ap_result(gatt, settle, after, replies) == Some(error::seen(result));
                let replies = seq![first] + later;
                assert(replies.skip(1) == later);
                assert(start_ap_result(gatt, settle, state@, replies) == Some(
                    error::seen(result),
                ));
            }
            result
        },
        Step::Done(result) => {
            assert(start_ap_result(gatt, settle, state@, seq![first]) == Some(
                error::seen(result),
            ));
            result
        },
    }
}

/// Camera operations, expressed over any [`Gatt`] transport.
pub struct Session<G: Gatt> {
    gatt: G,
}

impl<G: Gatt> Session<G> {
    /// The transport that the session runs over.
    pub closed spec fn transport(&self) -> &G {
        &self.gatt
    }

    pub fn new(gatt: G) -> (session: Self)
        ensures
            session.transport() == gatt,
    {
        Session { gatt }
    }

    pub fn gatt(&self) -> (gatt: &G)
        ensures
            gatt == self.transport(),
    {
        &self.gatt
    }

    /// The model, as the camera gives it.
    pub fn model(&self) -> (value: Result<String>)
        ensures
            exists|reply: Result<Vec<u8>>| #[trigger]
                call_ensures(G::read, (self.transport(), p::CHAR_MODEL_NUMBER), reply) && error::seen(value)
                    == text_in(raw_seen(reply)),
    {
        text_from(self.gatt().read(p::CHAR_MODEL_NUMBER))
    }

    /// The firmware revision, as the camera gives it.
    pub fn firmware(&self) -> (value: Result<String>)
        ensures
            exists|reply: Result<Vec<u8>>| #[trigger]
                call_ensures(G::read, (self.transport(), p::CHAR_FIRMWARE_REVISION), reply) && error::seen(value)
                    == text_in(raw_seen(reply)),
    {
        text_from(self.gatt().read(p::CHAR_FIRMWARE_REVISION))
    }

    /// The serial number, as the camera gives it.
    pub fn serial(&self) -> (value: Result<String>)
        ensures
            exists|reply: Result<Vec<u8>>| #[trigger]
                call_ensures(G::read, (self.transport(), p::CHAR_SERIAL_NUMBER), reply) && error::seen(value)
                    == text_in(raw_seen(reply)),
    {
        text_from(self.gatt().read(p::CHAR_SERIAL_NUMBER))
    }

    /// Whether the camera says it is on.
    pub fn power(&self) -> (value: Result<p::CameraPower>)
        ensures
            exists|reply: Result<Vec<u8>>| #[trigger]
                call_ensures(G::read, (self.transport(), p::CHAR_CAMERA_POWER), reply) && error::seen(value)
                    == power_in(raw_seen(reply)),
    {
        power_from(self.gatt().read(p::CHAR_CAMERA_POWER))
    }

    /// Switch the camera.
    pub fn set_power(&self, value: p::CameraPower) -> (result: Result<()>)
        ensures
            exists|data: &[u8]|
                data@ == seq![p::sint8_byte(value.code())] && #[trigger] call_ensures(
                    G::write,
                    (self.transport(), p::CHAR_CAMERA_POWER, data),
                    result,
                ),
    {
        let encoded = p::encode_sint8(value.as_i8());
        let data = encoded.as_slice();
        assert(data@ == seq![p::sint8_byte(value.code())]);
        self.gatt().write(p::CHAR_CAMERA_POWER, data)
    }

    /// Why the camera is awake.
    pub fn operation_mode(&self) -> (value: Result<p::OperationMode>)
        ensures
            exists|reply: Result<Vec<u8>>| #[trigger]
                call_ensures(G::read, (self.transport(), p::CHAR_OPERATION_MODE), reply) && error::seen(value)
                    == mode_in(raw_seen(reply)),
    {
        mode_from(self.gatt().read(p::CHAR_OPERATION_MODE))
    }

    /// The battery, and what the camera runs on.
    pub fn battery(&self) -> (value: Result<p::BatteryLevel>)
        ensures
            exists|reply: Result<Vec<u8>>| #[trigger]
                call_ensures(G::read, (self.transport(), p::CHAR_BATTERY_LEVEL), reply) && error::seen(value)
                    == battery_in(raw_seen(reply)),
    {
        battery_from(self.gatt().read(p::CHAR_BATTERY_LEVEL))
    }

    /// The storage slots.
    pub fn storage(&self) -> (value: Result<Vec<p::StorageSlot>>)
        ensures
            exists|reply: Result<Vec<u8>>| #[trigger]
                call_ensures(G::read, (self.transport(), p::CHAR_STORAGE_INFORMATION), reply) && error::seen(value)
                    == storage_in(raw_seen(reply)),
    {
        storage_from(self.gatt().read(p::CHAR_STORAGE_INFORMATION))
    }

    /// The transfer queue.
    pub fn transfer_queue(&self) -> (value: Result<p::FileTransferList>)
        ensures
            exists|reply: Result<Vec<u8>>| #[trigger]
                call_ensures(G::read, (self.transport(), p::CHAR_FILE_TRANSFER_LIST), reply) && error::seen(value)
                    == queue_in(raw_seen(reply)),
    {
        queue_from(self.gatt().read(p::CHAR_FILE_TRANSFER_LIST))
    }

    /// When the camera answers over Bluetooth.
    pub fn ble_enable_condition(&self) -> (value: Result<p::BleEnableCondition>)
        ensures
            exists|reply: Result<Vec<u8>>| #[trigger]
                call_ensures(G::read, (self.transport(), p::CHAR_BLE_ENABLE_CONDITION), reply) && error::seen(value)
                    == condition_in(raw_seen(reply)),
    {
        condition_from(self.gatt().read(p::CHAR_BLE_ENABLE_CONDITION))
    }

    /// Whether the access point is up.
    pub fn network_type(&self) -> (value: Result<p::NetworkType>)
        ensures
            exists|reply: Result<Vec<u8>>| #[trigger]
                call_ensures(G::read, (self.transport(), p::CHAR_NETWORK_TYPE), reply) && error::seen(value)
                    == network_in(raw_seen(reply)),
    {
        network_from(self.gatt().read(p::CHAR_NETWORK_TYPE))
    }

    /// Raise or drop the access point.
    pub fn set_network_type(&self, value: p::NetworkType) -> (result: Result<()>)
        ensures
            exists|data: &[u8]|
                data@ == seq![p::sint8_byte(value.code())] && #[trigger] call_ensures(
                    G::write,
                    (self.transport(), p::CHAR_NETWORK_TYPE, data),
                    result,
                ),
    {
        let encoded = p::encode_sint8(value.as_i8());
        let data = encoded.as_slice();
        assert(data@ == seq![p::sint8_byte(value.code())]);
        self.gatt().write(p::CHAR_NETWORK_TYPE, data)
    }

    /// How to join the access point.
    pub fn credentials(&self) -> (credentials: Result<WlanCredentials>)
        ensures
            exists|ssid: Result<Vec<u8>>| #[trigger]
                call_ensures(G::read, (self.transport(), p::CHAR_SSID), ssid) && match text_in(
                    raw_seen(ssid),
                ) {
                    Err(error) => error::seen(credentials) == Err::<CredentialsView, ErrorView>(
                        error,
                    ),
                    Ok(ssid) => exists|passphrase: Result<Vec<u8>>| #[trigger]
                        call_ensures(G::read, (self.transport(), p::CHAR_PASSPHRASE), passphrase)
                            && error::seen(credentials) == match text_in(raw_seen(passphrase)) {
                            Err(error) => Err::<CredentialsView, ErrorView>(error),
                            Ok(passphrase) => Ok(CredentialsView { ssid, passphrase }),
                        },
                },
    {
        match text_from(self.gatt().read(p::CHAR_SSID)) {
            Err(error) => Err(error),
            Ok(ssid) => match text_from(self.gatt().read(p::CHAR_PASSPHRASE)) {
                Err(error) => Err(error),
                Ok(passphrase) => Ok(WlanCredentials { ssid, passphrase }),
            },
        }
    }

    /// Bring the camera up, reporting whether Bluetooth is why it is awake.
    pub fn wake(&self, settle: u64) -> (ours: Result<bool>)
        ensures
            exists|replies: Seq<GattReply>| #[trigger]
                wake_result(self.transport(), settle, Wake::Mode, replies) == Some(
                    error::seen(ours),
                ),
    {
        drive_wake(self.gatt(), settle, Wake::Mode)
    }

    /// Raise the camera's access point and read back how to join it.
    pub fn start_ap(&self, settle: u64) -> (credentials: Result<WlanCredentials>)
        ensures
            exists|replies: Seq<GattReply>| #[trigger]
                start_ap_result(self.transport(), settle, StartApView::Type, replies) == Some(
                    error::seen(credentials),
                ),
    {
        drive_start_ap(self.gatt(), settle, StartAp::Type)
    }

    /// Drop the access point.
    pub fn stop_ap(&self) -> (result: Result<()>)
        ensures
            exists|data: &[u8]|
                data@ == seq![0u8] && #[trigger] call_ensures(
                    G::write,
                    (self.transport(), p::CHAR_NETWORK_TYPE, data),
                    result,
                ),
    {
        self.set_network_type(p::NetworkType::Off)
    }
}

/// Whether an operation is one that gr3sync is allowed: any read or wait, and
/// writes to characteristics documented as writable.
pub open spec fn is_allowed(op: GattOp) -> bool {
    match op {
        GattOp::Write(uuid, _) => uuid == p::CHAR_CAMERA_POWER || uuid == p::CHAR_NETWORK_TYPE,
        _ => true,
    }
}

/// Waking a camera writes nothing but `Camera Power` on.
pub proof fn lemma_waking_only_switches_on(state: Wake, settle: u64)
    ensures
        wake_op(state, settle) matches GattOp::Write(uuid, byte) ==> uuid == p::CHAR_CAMERA_POWER
            && byte == p::sint8_byte(p::CameraPower::On.code()),
        is_allowed(wake_op(state, settle)),
{
}

/// A camera that is already on is not written to.
pub proof fn lemma_a_camera_that_is_on_is_left_alone(ours: bool, raw: Seq<u8>)
    requires
        power_in(Ok(raw)) == Ok::<p::CameraPower, ErrorView>(p::CameraPower::On),
    ensures
        wake_next(Wake::Power { ours }, GattReplyView::Value(Ok(raw))) == StepView::<Wake, bool>::Done(
            Ok(ours),
        ),
{
}

/// Whatever the camera replies, whether it counts as woken by Bluetooth is
/// what its `Operation Mode` said.
pub proof fn lemma_ours_means_ble_startup(reply: GattReplyView)
    ensures
        wake_next(Wake::Mode, reply) matches StepView::More(Wake::Power { ours }) ==> {
            &&& reply matches GattReplyView::Value(raw) && mode_in(raw) is Ok
            &&& ours == (reply->Value_0 is Ok && mode_in(reply->Value_0) == Ok::<
                p::OperationMode,
                ErrorView,
            >(p::OperationMode::BleStartup))
        },
        forall|ours: bool, later: GattReplyView|
            match #[trigger] wake_next(Wake::Power { ours }, later) {
                StepView::More(Wake::SwitchOn { ours: kept }) => kept == ours,
                StepView::Done(Ok(answer)) => answer == ours,
                _ => true,
            },
        forall|ours: bool, later: GattReplyView|
            match #[trigger] wake_next(Wake::SwitchOn { ours }, later) {
                StepView::More(Wake::Settle { ours: kept }) => kept == ours,
                _ => true,
            },
        forall|ours: bool, later: GattReplyView| #[trigger]
            wake_next(Wake::Settle { ours }, later) == StepView::<Wake, bool>::Done(Ok(ours)),
{
}

/// Raising the access point writes nothing but AP mode, and never hands out an
/// empty SSID.
pub proof fn lemma_raising_the_access_point(
    state: StartApView,
    settle: u64,
    reply: GattReplyView,
)
    ensures
        start_ap_op(state, settle) matches GattOp::Write(uuid, byte) ==> uuid
            == p::CHAR_NETWORK_TYPE && byte == p::sint8_byte(p::NetworkType::ApMode.code()),
        is_allowed(start_ap_op(state, settle)),
        start_ap_next(state, reply) matches StepView::Done(Ok(credentials)) ==> {
            &&& state is Passphrase
            &&& credentials.ssid.len() > 0
        },
        (state is Type && start_ap_next(state, reply) == StepView::<
            StartApView,
            CredentialsView,
        >::More(StartApView::Raise)) ==> (reply matches GattReplyView::Value(raw) && network_in(
            raw,
        ) != Ok::<p::NetworkType, ErrorView>(p::NetworkType::ApMode)),
{
}

/// What a scan lets through is what it saw: the address and the strength as they were,
/// under the local name, or else the advertised one. Told to, it lets every device
/// through, and otherwise those with a camera's name only.
pub proof fn lemma_what_a_scan_lets_through(
    address: Seq<char>,
    local_name: Option<Seq<char>>,
    advertisement_name: Option<Seq<char>>,
    rssi: Option<i16>,
    all_devices: bool,
)
    ensures
        ({
            let seen = sighting(address, local_name, advertisement_name, rssi, all_devices);
            &&& seen matches Some(camera) ==> camera.address == address && camera.rssi == rssi
            &&& (seen is Some && local_name is Some) ==> seen.unwrap().name == local_name
            &&& (seen is Some && local_name is None) ==> seen.unwrap().name == advertisement_name
            &&& all_devices ==> seen is Some
            &&& !all_devices ==> (seen is Some <==> match (local_name, advertisement_name) {
                (Some(name), _) => camera_name(name),
                (None, Some(name)) => camera_name(name),
                (None, None) => false,
            })
        }),
{
}

/// A camera's name is one that begins as the GR's do, whatever follows.
pub proof fn lemma_camera_names(rest: Seq<char>, name: Seq<char>)
    ensures
        camera_name("GR_"@ + rest),
        camera_name("RICOH GR"@ + rest),
        camera_name("GR III"@ + rest),
        camera_name("GRIII"@ + rest),
        camera_name(name) ==> name.len() >= 3 && (name[0] == 'G' && name[1] == 'R' || name[0] == 'R'
            && name[1] == 'I'),
        camera_name(name) && name[0] == 'G' ==> name[2] == '_' || name[2] == ' ' || name[2]
            == 'I',
{
    reveal_strlit("GR_");
    reveal_strlit("RICOH GR");
    reveal_strlit("GR III");
    reveal_strlit("GRIII");
    assert(("GR_"@ + rest).take(3) =~= "GR_"@);
    assert(("RICOH GR"@ + rest).take(8) =~= "RICOH GR"@);
    assert(("GR III"@ + rest).take(6) =~= "GR III"@);
    assert(("GRIII"@ + rest).take(5) =~= "GRIII"@);
    if text::has_prefix(name, "GR_"@) {
        assert(name.take(3)[0] == name[0] && name.take(3)[1] == name[1] && name.take(3)[2]
            == name[2]);
    }
    if text::has_prefix(name, "RICOH GR"@) {
        assert(name.take(8)[0] == name[0] && name.take(8)[1] == name[1]);
    }
    if text::has_prefix(name, "GR III"@) {
        assert(name.take(6)[0] == name[0] && name.take(6)[1] == name[1] && name.take(6)[2]
            == name[2]);
    }
    if text::has_prefix(name, "GRIII"@) {
        assert(name.take(5)[0] == name[0] && name.take(5)[1] == name[1] && name.take(5)[2]
            == name[2]);
    }
}

/// Without an address the only camera in range is chosen; none is an error of its
/// own, and so are several, rather than a guess. With one, the first camera at that
/// address is.
pub proof fn lemma_no_camera_is_guessed(found: Seq<DiscoveredView>, wanted: Seq<char>, k: int)
    ensures
        selected(found, None) is Ok <==> found.len() == 1,
        found.len() == 1 ==> selected(found, None) == Ok::<int, ErrorView>(0) && picked(found)
            == Ok::<DiscoveredView, ErrorView>(found[0]),
        found.len() == 0 ==> selected(found, None) == Err::<int, ErrorView>(
            ErrorView::CameraNotFound,
        ),
        found.len() > 1 ==> (selected(found, None) matches Err(ErrorView::AmbiguousCamera(_))),
        (0 <= k < found.len() && text::same_ignoring_case(found[k].address, wanted) && forall|j: int|
            0 <= j < k ==> !text::same_ignoring_case(#[trigger] found[j].address, wanted))
            ==> selected(found, Some(wanted)) == Ok::<int, ErrorView>(k),
        selected(found, Some(wanted)) is Err ==> selected(found, Some(wanted)) == Err::<
            int,
            ErrorView,
        >(ErrorView::CameraNotFound),
{
    if 0 <= k < found.len() && text::same_ignoring_case(found[k].address, wanted) && forall|j: int|
        0 <= j < k ==> !text::same_ignoring_case(#[trigger] found[j].address, wanted) {
        lemma_position_is(found, wanted, 0, k);
    }
}

proof fn lemma_position_is(found: Seq<DiscoveredView>, wanted: Seq<char>, from: nat, k: int)
    requires
        from <= k < found.len(),
        text::same_ignoring_case(found[k].address, wanted),
        forall|j: int|
            from <= j < k ==> !text::same_ignoring_case(#[trigger] found[j].address, wanted),
    ensures
        position_at(found, wanted, from) == Some(k),
    decreases k - from,
{
    if from < k {
        assert(!text::same_ignoring_case(found[from as int].address, wanted));
        lemma_position_is(found, wanted, from + 1, k);
    }
}

/// Of a whole waking that succeeds: the answer is whether `Operation Mode` said that
/// Bluetooth is why the camera is awake; one that `Camera Power` says is on is left
/// alone, and any other is switched on and given the time to settle.
pub proof fn lemma_a_whole_waking<G: Gatt>(
    gatt: &G,
    settle: u64,
    replies: Seq<GattReply>,
    ours: bool,
)
    requires
        wake_result(gatt, settle, Wake::Mode, replies) == Some(Ok::<bool, ErrorView>(ours)),
    ensures
        replies.len() == 2 || replies.len() == 4,
        answers(gatt, GattOp::Read(p::CHAR_OPERATION_MODE), replies[0]),
        answers(gatt, GattOp::Read(p::CHAR_CAMERA_POWER), replies[1]),
        replies[0]@ matches GattReplyView::Value(mode) && (ours <==> mode_in(mode) == Ok::<
            p::OperationMode,
            ErrorView,
        >(p::OperationMode::BleStartup)),
        replies[1]@ matches GattReplyView::Value(power) && (replies.len() == 2 <==> power_in(power)
            == Ok::<p::CameraPower, ErrorView>(p::CameraPower::On)),
        replies.len() == 4 ==> answers(gatt, GattOp::Write(p::CHAR_CAMERA_POWER, 1), replies[2])
            && answers(gatt, GattOp::Settle(settle), replies[3]),
{
    reveal_with_fuel(wake_result, 5);
    let one = replies.skip(1);
    let two = one.skip(1);
    let three = two.skip(1);
    if one.len() > 0 {
        assert(one[0] == replies[1]);
        if two.len() > 0 {
            assert(two[0] == replies[2]);
            if three.len() > 0 {
                assert(three[0] == replies[3]);
            }
        }
    }
}

/// Of a whole raising of the access point that succeeds: what is handed out is what
/// `SSID` and `Passphrase` read as afterwards; AP mode is written exactly where the
/// camera was not in it yet, and then given the time to settle.
pub proof fn lemma_a_whole_raising<G: Gatt>(
    gatt: &G,
    settle: u64,
    replies: Seq<GattReply>,
    credentials: CredentialsView,
)
    requires
        start_ap_result(gatt, settle, StartApView::Type, replies) == Some(
            Ok::<CredentialsView, ErrorView>(credentials),
        ),
    ensures
        replies.len() == 3 || replies.len() == 5,
        answers(gatt, GattOp::Read(p::CHAR_NETWORK_TYPE), replies[0]),
        replies[0]@ matches GattReplyView::Value(network) && (replies.len() == 3 <==> network_in(
            network,
        ) == Ok::<p::NetworkType, ErrorView>(p::NetworkType::ApMode)),
        replies.len() == 5 ==> answers(gatt, GattOp::Write(p::CHAR_NETWORK_TYPE, 1), replies[1])
            && answers(gatt, GattOp::Settle(settle), replies[2]),
        answers(gatt, GattOp::Read(p::CHAR_SSID), replies[replies.len() - 2]),
        answers(gatt, GattOp::Read(p::CHAR_PASSPHRASE), replies[replies.len() - 1]),
        replies[replies.len() - 2]@ matches GattReplyView::Value(ssid) && text_in(ssid) == Ok::<
            Seq<char>,
            ErrorView,
        >(credentials.ssid),
        replies[replies.len() - 1]@ matches GattReplyView::Value(passphrase) && text_in(passphrase)
            == Ok::<Seq<char>, ErrorView>(credentials.passphrase),
        credentials.ssid.len() > 0,
{
    reveal_with_fuel(start_ap_result, 6);
    let one = replies.skip(1);
    let two = one.skip(1);
    let three = two.skip(1);
    let four = three.skip(1);
    if one.len() > 0 {
        assert(one[0] == replies[1]);
        if two.len() > 0 {
            assert(two[0] == replies[2]);
            if three.len() > 0 {
                assert(three[0] == replies[3]);
                if four.len() > 0 {
                    assert(four[0] == replies[4]);
                }
            }
        }
    }
}

/// A reading is taken as it came: a failed one stays the failure it was, and a value
/// that was encoded reads back.
pub proof fn lemma_readings(
    power: p::CameraPower,
    mode: p::OperationMode,
    network: p::NetworkType,
    condition: p::BleEnableCondition,
    error: ErrorView,
)
    ensures
        power_in(Ok(seq![p::sint8_byte(power.code())])) == Ok::<p::CameraPower, ErrorView>(power),
        mode_in(Ok(seq![p::sint8_byte(mode.code())])) == Ok::<p::OperationMode, ErrorView>(mode),
        network_in(Ok(seq![p::sint8_byte(network.code())])) == Ok::<p::NetworkType, ErrorView>(
            network,
        ),
        condition_in(Ok(seq![p::sint8_byte(condition.code())])) == Ok::<
            p::BleEnableCondition,
            ErrorView,
        >(condition),
        power_in(Err(error)) == Err::<p::CameraPower, ErrorView>(error),
        mode_in(Err(error)) == Err::<p::OperationMode, ErrorView>(error),
        network_in(Err(error)) == Err::<p::NetworkType, ErrorView>(error),
        condition_in(Err(error)) == Err::<p::BleEnableCondition, ErrorView>(error),
        battery_in(Err(error)) == Err::<p::BatteryLevel, ErrorView>(error),
        text_in(Err(error)) == Err::<Seq<char>, ErrorView>(error),
        storage_in(Err(error)) == Err::<Seq<p::StorageSlot>, ErrorView>(error),
        queue_in(Err(error)) == Err::<p::FileTransferList, ErrorView>(error),
{
    p::lemma_sint8_round_trips(power.code());
    p::lemma_sint8_round_trips(mode.code());
    p::lemma_sint8_round_trips(network.code());
    p::lemma_sint8_round_trips(condition.code());
    p::lemma_enumerations_round_trip();
}

/// Waking, and raising the access point, fail as the camera did: whatever is read or
/// written and fails ends them with that error, and so does an empty SSID with one of
/// its own.
pub proof fn lemma_procedures_fail_as_the_camera_did(
    wake: Wake,
    ap: StartApView,
    error: ErrorView,
    passphrase: Seq<u8>,
)
    ensures
        (wake is Mode || wake is Power) ==> wake_next(wake, GattReplyView::Value(Err(error)))
            == StepView::<Wake, bool>::Done(Err(error)),
        wake is SwitchOn ==> wake_next(wake, GattReplyView::Written(Err(error))) == StepView::<
            Wake,
            bool,
        >::Done(Err(error)),
        (ap is Type || ap is Ssid || ap is Passphrase) ==> start_ap_next(
            ap,
            GattReplyView::Value(Err(error)),
        ) == StepView::<StartApView, CredentialsView>::Done(Err(error)),
        ap is Raise ==> start_ap_next(ap, GattReplyView::Written(Err(error))) == StepView::<
            StartApView,
            CredentialsView,
        >::Done(Err(error)),
        start_ap_next(
            StartApView::Passphrase { ssid: Seq::empty() },
            GattReplyView::Value(Ok(passphrase)),
        ) matches StepView::Done(Err(ErrorView::Ble(_))),
{
}

} // verus!
