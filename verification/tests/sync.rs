//! Syncs against an emulated card, on a disk in memory.
//!
//! The Bluetooth leg is mostly substituted at the handoff seam, because what
//! these tests are about is the *orchestration*: does the host join, does it get
//! put back, does the camera's access point get torn down, and does an
//! interrupted run leave the machine somewhere sane.

use std::collections::{BTreeMap, BTreeSet};

use gr3sync::ble::{DiscoveredCamera, GattOp, GattReply};
use gr3sync::camera::{HttpReply, Phase, Wait, Work, WorkReply};
use gr3sync::emulator::{Card, GattTable};
use gr3sync::json::Json;
use gr3sync::netlink::WifiState;
use gr3sync::procedure::Step;
use gr3sync::protocol as p;
use gr3sync::state::{Entry, SaveWork, Saving};
use gr3sync::sync::bring_up::BleHandoff;
use gr3sync::sync::pull::{PullReply, PullWork};
use gr3sync::sync::run::{Run, RunReply, RunWork};
use gr3sync::sync::wifi::{WifiPhase, WifiReply, WifiWork};
use gr3sync::sync::{ledger_key, local_path, Failure};
use gr3sync::{Camera, Config, Error, Ledger, Options, Outcome, PhotoRef, Result};

const DEST: &str = "/dest";
const HOST: &str = "127.0.0.1:8080";

/// What lies on the disk.
enum File {
    Photo(Vec<u8>),
    Ledger(Vec<(String, Entry)>),
}

/// The host, the camera and the disk.
struct World {
    card: Card,
    table: GattTable,
    disk: BTreeMap<String, File>,
    folders: BTreeSet<String>,
    wifi: WifiState,
    /// What was asked of the Wi-Fi backend.
    actions: Vec<String>,
    /// What was asked of the camera over Bluetooth.
    gatt: Vec<String>,
    join_fails: bool,
    disk_full: bool,
    connect_fails: bool,
}

fn on(ssid: &str) -> WifiState {
    WifiState {
        interface: Some("wlan0".into()),
        ssid: Some(ssid.into()),
        profile: Some(ssid.into()),
    }
}

impl World {
    fn new(card: Card) -> Self {
        World {
            card,
            table: GattTable::specification(),
            disk: BTreeMap::new(),
            folders: BTreeSet::new(),
            wifi: on("Home Fibre"),
            actions: Vec::new(),
            gatt: Vec::new(),
            join_fails: false,
            disk_full: false,
            connect_fails: false,
        }
    }

    fn photos_on_disk(&self) -> Vec<&str> {
        self.disk
            .iter()
            .filter(|(_, file)| matches!(file, File::Photo(_)))
            .map(|(path, _)| path.as_str())
            .collect()
    }

    fn remove_folder(&mut self, folder: &str) {
        let prefix = format!("{folder}/");
        self.disk.retain(|path, _| !path.starts_with(&prefix));
        self.folders.remove(folder);
    }

    fn request(&mut self, method: &str, url: &str) -> Option<gr3sync::emulator::Response> {
        let path = url.strip_prefix("http://")?.strip_prefix(HOST)?.to_string();
        Some(self.card.serve(method, &path))
    }

    fn get(&mut self, camera: &Camera, path: &str) -> HttpReply {
        match self.request("GET", &camera.url(path)) {
            Some(response) => HttpReply::Answered {
                status: response.status,
                body: response.body,
            },
            None => HttpReply::Failed("connection refused".into()),
        }
    }

    fn download(&mut self, camera: &Camera, photo: &PhotoRef, target: &str, legacy: bool) -> Result<u64> {
        let transfer = camera.download(photo, target, legacy);
        let mut phase = Phase::Folder;
        let mut body = Vec::new();
        let mut open = String::new();
        loop {
            let reply = match transfer.work(&phase) {
                Work::CreateFolder(path) => {
                    self.folders.insert(path);
                    WorkReply::Done
                }
                Work::Get(url) => match self.request("GET", &url) {
                    Some(response) => {
                        body = response.body;
                        WorkReply::Response {
                            status: response.status,
                            length: Some(response.announced.to_string()),
                        }
                    }
                    None => WorkReply::Failed("connection refused".into()),
                },
                Work::CreateFile(path) => {
                    self.disk.insert(path.clone(), File::Photo(Vec::new()));
                    open = path;
                    WorkReply::Done
                }
                Work::Copy => {
                    self.disk.insert(open.clone(), File::Photo(body.clone()));
                    WorkReply::Copied(body.len() as u64)
                }
                Work::Rename { from, to } => {
                    let file = self.disk.remove(&from).unwrap();
                    self.disk.insert(to, file);
                    WorkReply::Done
                }
                Work::Remove(path) => {
                    self.disk.remove(&path);
                    WorkReply::Done
                }
            };
            match transfer.next(phase, reply) {
                Step::More(next) => phase = next,
                Step::Done(result) => return result,
            }
        }
    }

    fn save(&mut self, ledger: &Ledger) -> Result<()> {
        let mut state = Saving::Folder;
        let mut open = String::new();
        loop {
            let failure = match ledger.save(&state) {
                SaveWork::CreateFolder(path) => {
                    self.folders.insert(path);
                    None
                }
                SaveWork::CreateFile(path) => {
                    self.disk.insert(path.clone(), File::Ledger(Vec::new()));
                    open = path;
                    None
                }
                SaveWork::Write if self.disk_full => Some("no space left on device".to_string()),
                SaveWork::Write => {
                    self.disk.insert(open.clone(), File::Ledger(ledger.entries()));
                    None
                }
                SaveWork::Sync => None,
                SaveWork::Rename { from, to } => {
                    let file = self.disk.remove(&from).unwrap();
                    self.disk.insert(to, file);
                    None
                }
                SaveWork::Remove(path) => {
                    self.disk.remove(&path);
                    None
                }
            };
            match ledger.saved(state, failure) {
                Step::More(next) => state = next,
                Step::Done(result) => return result,
            }
        }
    }

    fn ledger_entries(&self) -> Option<Vec<(String, Entry)>> {
        match self.disk.get(&Ledger::path_in(DEST)) {
            Some(File::Ledger(entries)) => Some(
                entries
                    .iter()
                    .map(|(key, entry)| {
                        (
                            key.clone(),
                            Entry {
                                size: entry.size,
                                camera: entry.camera.clone(),
                            },
                        )
                    })
                    .collect(),
            ),
            _ => None,
        }
    }

    fn ledger(&self) -> Ledger {
        Ledger::load(DEST, self.ledger_entries())
    }

    fn pull_reply(&mut self, options: &Options, work: PullWork, ledger: Option<&Ledger>) -> PullReply {
        let camera = Camera::new(&options.host);
        match work {
            PullWork::GetProps => {
                let reply = self.get(&camera, "/v1/props");
                PullReply::Props(camera.props(reply))
            }
            PullWork::GetPhotos => {
                let reply = self.get(&camera, "/v1/photos");
                PullReply::Photos(camera.photos(reply))
            }
            PullWork::Inspect { keys } => PullReply::Inspected {
                entries: self.ledger_entries(),
                on_disk: keys
                    .iter()
                    .map(|key| self.disk.contains_key(&format!("{DEST}/{key}")))
                    .collect(),
            },
            PullWork::Download {
                photo,
                target,
                legacy,
            } => PullReply::Downloaded(self.download(&camera, &photo, &target, legacy)),
            PullWork::SaveLedger => PullReply::Saved(self.save(ledger.expect("a ledger"))),
        }
    }

    fn wifi_reply(&mut self, options: &Options, work: WifiWork, ledger: Option<&Ledger>) -> WifiReply {
        match work {
            WifiWork::QueryCurrent => {
                self.actions.push("current".into());
                WifiReply::Current(Ok(self.wifi.clone()))
            }
            WifiWork::Join {
                ssid, passphrase, ..
            } => {
                self.actions.push(format!("join {ssid} {passphrase}"));
                WifiReply::Joined(if self.join_fails {
                    Err(Error::Network("no such network".into()))
                } else {
                    Ok(())
                })
            }
            WifiWork::WaitUntilUp(timeout) => {
                let camera = Camera::new(&options.host);
                let mut elapsed = 0;
                loop {
                    let reply = self.get(&camera, "/v1/ping");
                    let up = camera.ping(reply);
                    match camera.wait_until_up(up, elapsed, timeout) {
                        Wait::Up => return WifiReply::Up(Ok(())),
                        Wait::Again(millis) => elapsed += millis,
                        Wait::GiveUp(error) => return WifiReply::Up(Err(error)),
                    }
                }
            }
            WifiWork::Pull(work) => WifiReply::Pull(self.pull_reply(options, work, ledger)),
            WifiWork::FinishWlan => {
                let post = Camera::new(&options.host).finish_wlan();
                self.request("POST", &post.url);
                WifiReply::Finished
            }
            WifiWork::Restore(state) => {
                self.actions
                    .push(format!("restore {}", state.ssid.as_deref().unwrap_or("-")));
                WifiReply::Restored(Ok(()))
            }
        }
    }

    fn wifi_phase(&mut self, handoff: Option<BleHandoff>, options: &Options) -> (Result<Outcome>, Vec<Json>) {
        let (mut events, mut phase) = WifiPhase::start("stub", false);
        loop {
            let work = phase.work(options, &handoff);
            let reply = self.wifi_reply(options, work, ledger_of(&phase));
            let (more, step) = phase.next(options, &handoff, reply);
            events.extend(more);
            match step {
                Step::More(next) => phase = next,
                Step::Done(result) => return (result, events),
            }
        }
    }

    fn gatt_reply(&mut self, op: GattOp) -> GattReply {
        match op {
            GattOp::Read(uuid) => GattReply::Value(
                self.table
                    .read(uuid)
                    .ok_or(Error::MissingCharacteristic(uuid)),
            ),
            GattOp::Write(uuid, byte) => {
                self.gatt.push(format!("{} {byte}", name_of(uuid)));
                GattReply::Written(self.table.write(uuid, &[byte]).map_err(Error::Ble))
            }
            GattOp::Settle(_) => GattReply::Settled,
        }
    }

    fn run(&mut self, options: &Options) -> (Result<Outcome>, Vec<Json>) {
        let (mut events, mut state) = Run::start(options);
        loop {
            let reply = match state.work(options) {
                RunWork::CreateFolder(path) => {
                    self.folders.insert(path);
                    RunReply::Folder(None)
                }
                RunWork::Connect { .. } => {
                    self.gatt.push("connect".into());
                    RunReply::Connected(if self.connect_fails {
                        Err(Error::CameraNotFound)
                    } else {
                        Ok(DiscoveredCamera {
                            address: "AA:BB".into(),
                            name: Some("GR_EMULATED".into()),
                            rssi: None,
                        })
                    })
                }
                RunWork::Gatt(op) => RunReply::Gatt(self.gatt_reply(op)),
                RunWork::Disconnect => {
                    self.gatt.push("disconnect".into());
                    RunReply::Disconnected
                }
                RunWork::PickBackend(_) => {
                    self.gatt.push("backend".into());
                    RunReply::Backend(Ok(("stub".into(), false)))
                }
                RunWork::Wifi(work) => {
                    let ledger = match &state {
                        Run::Wifi { phase, .. } => ledger_of(phase),
                        _ => None,
                    };
                    RunReply::Wifi(self.wifi_reply(options, work, ledger))
                }
            };
            let (more, step) = state.next(options, reply);
            events.extend(more);
            match step {
                Step::More(next) => state = next,
                Step::Done(result) => return (result, events),
            }
        }
    }
}

fn name_of(uuid: u128) -> &'static str {
    match uuid {
        p::CHAR_CAMERA_POWER => "power",
        p::CHAR_NETWORK_TYPE => "network",
        _ => "other",
    }
}

fn ledger_of(phase: &WifiPhase) -> Option<&Ledger> {
    match phase {
        WifiPhase::Pulling {
            pull: gr3sync::sync::pull::Pull::Saving(transfers),
            ..
        } => Some(transfers.ledger()),
        _ => None,
    }
}

fn handoff() -> BleHandoff {
    BleHandoff {
        ssid: "GR_4CF5C6".into(),
        passphrase: "s3cr3t".into(),
        woke_it: true,
        battery: Some(88),
        model: Some("RICOH GR III".into()),
    }
}

fn options() -> Options {
    Options {
        dest: DEST.into(),
        use_ble: false,
        address: None,
        host: HOST.into(),
        jpeg: true,
        raw: true,
        last: None,
        directory: None,
        dry_run: false,
        power_off: true,
        keep_dirs: true,
        wifi_backend: None,
        wifi_interface: None,
        min_battery: 15,
        scan_timeout: 0,
        ap_timeout: 5000,
        http_timeout: 20000,
        wake_settle: 0,
        ap_settle: 0,
    }
}

fn pull(world: &mut World, options: &Options, with_handoff: bool) -> (Outcome, Vec<Json>) {
    let handoff = if with_handoff { Some(handoff()) } else { None };
    let (outcome, events) = world.wifi_phase(handoff, options);
    (outcome.expect("sync failed"), events)
}

fn setup() -> World {
    World::new(Card::with_pairs(3))
}

fn kinds(events: &[Json]) -> Vec<&str> {
    events
        .iter()
        .filter_map(|e| e.get("event").and_then(|v| v.as_str()))
        .collect()
}

fn flag(event: &Json, key: &str) -> Option<bool> {
    event.get(key).and_then(|v| v.as_bool())
}

// -- names --------------------------------------------------------------

#[test]
fn local_path_and_ledger_key_stay_in_step() {
    // If these disagreed, a flattened destination would look empty on every
    // run and pull the whole card again.
    let photo = PhotoRef::new("100RICOH", "R0000001.JPG");
    for keep_dirs in [true, false] {
        let path = local_path(DEST, &photo, keep_dirs);
        let key = ledger_key(&photo, keep_dirs);
        let joined = std::path::Path::new(DEST).join(&key);
        assert_eq!(std::path::Path::new(&path), joined, "{path:?} vs {key}");
    }
}

#[test]
fn flattening_drops_the_card_directory() {
    let photo = PhotoRef::new("100RICOH", "R0000001.JPG");
    assert_eq!(ledger_key(&photo, true), "100RICOH/R0000001.JPG");
    assert_eq!(ledger_key(&photo, false), "R0000001.JPG");
}

#[test]
fn an_outcome_with_failures_is_not_ok() {
    let mut outcome = Outcome::default();
    assert!(outcome.ok());
    outcome.failed.push(Failure {
        photo: "100RICOH/a.JPG".into(),
        error: "boom".into(),
    });
    assert!(!outcome.ok());
    assert_eq!(flag(&outcome.as_json(), "ok"), Some(false));
}

// -- happy path -------------------------------------------------------------

#[test]
fn pull_downloads_everything_on_the_card() {
    let mut world = setup();
    let (outcome, _) = pull(&mut world, &options(), false);

    assert!(outcome.ok());
    assert_eq!(outcome.downloaded.len(), 6);
    assert_eq!(outcome.model.as_deref(), Some("RICOH GR III"));
    assert!(world.disk.contains_key("/dest/100RICOH/R0000001.JPG"));
    assert!(outcome.bytes_written > 0);
}

#[test]
fn a_second_pull_downloads_nothing() {
    let mut world = setup();
    let options = options();
    pull(&mut world, &options, false);
    let (again, _) = pull(&mut world, &options, false);

    assert!(again.downloaded.is_empty());
    assert_eq!(again.skipped.len(), 6);
}

#[test]
fn files_moved_out_of_the_inbox_are_not_re_downloaded() {
    let mut world = setup();
    let options = options();
    pull(&mut world, &options, false);
    world.remove_folder("/dest/100RICOH");

    let (again, _) = pull(&mut world, &options, false);
    assert!(again.downloaded.is_empty());
    assert_eq!(again.skipped.len(), 6);
}

#[test]
fn losing_both_the_files_and_the_ledger_pulls_again() {
    let mut world = setup();
    let options = options();
    pull(&mut world, &options, false);
    world.remove_folder("/dest/100RICOH");
    world.disk.remove("/dest/.gr3sync-ledger.json");

    let (again, _) = pull(&mut world, &options, false);
    assert_eq!(again.downloaded.len(), 6);
}

#[test]
fn raw_only_pull() {
    let mut world = setup();
    let mut options = options();
    options.jpeg = false;
    let (outcome, _) = pull(&mut world, &options, false);
    assert_eq!(outcome.downloaded.len(), 3);
    assert!(outcome.downloaded.iter().all(|k| k.ends_with(".DNG")));
}

#[test]
fn last_two_jpegs() {
    let mut world = setup();
    let mut options = options();
    options.raw = false;
    options.last = Some(2);
    let (outcome, _) = pull(&mut world, &options, false);
    assert_eq!(
        outcome.downloaded,
        vec!["100RICOH/R0000002.JPG", "100RICOH/R0000003.JPG"]
    );
}

#[test]
fn dry_run_writes_nothing_at_all() {
    let mut world = setup();
    let mut options = options();
    options.dry_run = true;
    let (outcome, _) = pull(&mut world, &options, false);

    assert_eq!(outcome.downloaded.len(), 6);
    assert_eq!(outcome.bytes_written, 0);
    assert!(!world.folders.contains("/dest/100RICOH"));
    assert!(!world.disk.contains_key("/dest/.gr3sync-ledger.json"));
    assert!(world.disk.is_empty());
}

#[test]
fn flatten_agrees_between_the_path_and_the_ledger_key() {
    let mut world = setup();
    let mut options = options();
    options.keep_dirs = false;
    let (outcome, _) = pull(&mut world, &options, false);

    assert!(world.disk.contains_key("/dest/R0000001.JPG"));
    assert_eq!(outcome.downloaded[0], "R0000001.DNG");
    // If local_path and ledger_key disagreed, the second run would see an empty
    // destination and pull the whole card again.
    let (again, _) = pull(&mut world, &options, false);
    assert!(again.downloaded.is_empty());
}

// -- the network dance ------------------------------------------------------

#[test]
fn a_ble_handoff_joins_the_camera_ap_and_restores_afterwards() {
    let mut world = setup();
    let (outcome, _) = pull(&mut world, &options(), true);

    assert!(outcome.ok());
    assert_eq!(
        world.actions,
        vec!["current", "join GR_4CF5C6 s3cr3t", "restore Home Fibre"]
    );
    assert!(
        world.card.wlan_finished,
        "the camera's AP must be dropped from the camera side"
    );
}

#[test]
fn the_host_network_is_restored_even_when_the_camera_never_answers() {
    // The join succeeds, then the camera is not there: the failure mode of a
    // camera that dropped its access point between BLE and Wi-Fi. Leaving the
    // host associated with a dead AP would strand it with no route anywhere.
    let mut world = setup();
    let mut options = options();
    options.host = "127.0.0.1:1".into();
    options.ap_timeout = 0;

    let (result, _) = world.wifi_phase(Some(handoff()), &options);

    assert!(
        result.is_err(),
        "an unreachable camera must not report success"
    );
    assert_eq!(
        world.actions,
        vec!["current", "join GR_4CF5C6 s3cr3t", "restore Home Fibre"]
    );
}

#[test]
fn the_host_network_is_restored_even_when_joining_fails() {
    // A join can fail after it has left the old network.
    let mut world = setup();
    world.join_fails = true;
    let (result, _) = world.wifi_phase(Some(handoff()), &options());
    assert!(matches!(result, Err(Error::Network(_))));
    assert_eq!(
        world.actions,
        vec!["current", "join GR_4CF5C6 s3cr3t", "restore Home Fibre"]
    );
    assert!(world.card.wlan_finished);
    assert!(world.disk.is_empty());
}

#[test]
fn a_dry_run_makes_no_folder() {
    let mut world = setup();
    let mut options = options();
    options.use_ble = false;
    options.dry_run = true;
    let (outcome, events) = world.run(&options);
    assert_eq!(outcome.unwrap().downloaded.len(), 6);
    assert!(world.folders.is_empty() && world.disk.is_empty());
    assert_eq!(events[0].get("event").unwrap().as_str(), Some("ble.skipped"));

    options.dry_run = false;
    world.run(&options).0.unwrap();
    assert!(world.folders.contains(DEST));
}

#[test]
fn a_directory_that_ends_in_a_slash_has_its_files_found_again() {
    let photo = PhotoRef::new("100RICOH/", "R0000001.JPG");
    assert_eq!(local_path("/d", &photo, true), "/d/100RICOH/R0000001.JPG");
    assert_eq!(ledger_key(&photo, true), "100RICOH//R0000001.JPG");
}

#[test]
fn a_file_that_fails_to_download_does_not_fail_the_whole_phase() {
    // Per-file failures belong in `outcome.failed`; only a failure that stops
    // the sync from happening at all is an Err.
    let mut card = Card::new();
    card.add("100RICOH", "R0000001.JPG", b"ok".repeat(512));
    card.broken.push("R0000001.JPG".into());
    let mut world = World::new(card);

    let (outcome, _) = world.wifi_phase(None, &options());
    let outcome = outcome.expect("the phase itself must succeed");
    assert!(!outcome.ok());
    assert_eq!(outcome.failed.len(), 1);
}

#[test]
fn no_ble_never_touches_the_host_network_or_the_camera_ap() {
    let mut world = setup();
    pull(&mut world, &options(), false);

    // With --no-ble the user raised the access point, so it is theirs to keep.
    assert_eq!(world.actions, vec!["current"]);
    assert!(!world.card.wlan_finished);
}

#[test]
fn already_on_the_camera_ap_means_no_rejoin() {
    let mut world = setup();
    world.wifi = on("GR_4CF5C6");
    pull(&mut world, &options(), true);

    let actions = &world.actions;
    assert!(
        !actions.iter().any(|a| a.starts_with("join")),
        "{actions:?}"
    );
    assert!(
        !actions.iter().any(|a| a.starts_with("restore")),
        "{actions:?}"
    );
    // The camera's AP is still dropped: we did raise it over BLE.
    assert!(world.card.wlan_finished);
}

// -- partial failure --------------------------------------------------------

#[test]
fn one_bad_file_does_not_abort_the_rest() {
    let mut card = Card::new();
    card.add("100RICOH", "R0000001.JPG", b"ok".repeat(512));
    card.add("100RICOH", "R0000002.JPG", b"bad".repeat(512));
    card.add("100RICOH", "R0000003.JPG", b"ok".repeat(512));
    card.broken.push("R0000002.JPG".into());

    let mut world = World::new(card);
    let (outcome, _) = pull(&mut world, &options(), false);

    assert_eq!(
        outcome.downloaded,
        vec!["100RICOH/R0000001.JPG", "100RICOH/R0000003.JPG"]
    );
    assert_eq!(outcome.failed.len(), 1);
    assert_eq!(outcome.failed[0].photo, "100RICOH/R0000002.JPG");
    assert!(!outcome.ok());
    assert!(!world.disk.contains_key("/dest/100RICOH/R0000002.JPG"));
    assert_eq!(outcome.bytes_written, 2048);
}

#[test]
fn the_ledger_survives_an_interrupted_run_and_only_the_failure_is_retried() {
    let mut card = Card::new();
    card.add("100RICOH", "R0000001.JPG", b"ok".repeat(512));
    card.add("100RICOH", "R0000002.JPG", b"bad".repeat(512));
    card.broken.push("R0000002.JPG".into());

    let mut world = World::new(card);
    let options = options();

    pull(&mut world, &options, false);
    assert!(world.ledger().contains("100RICOH/R0000001.JPG"));

    world.card.broken.clear();
    let (second, _) = pull(&mut world, &options, false);
    assert_eq!(second.downloaded, vec!["100RICOH/R0000002.JPG"]);
}

#[test]
fn a_ledger_that_cannot_be_saved_is_reported() {
    let mut world = setup();
    world.disk_full = true;
    let (outcome, events) = pull(&mut world, &options(), false);
    assert!(kinds(&events).contains(&"ledger.save_failed"));
    assert_eq!(outcome.downloaded.len(), 6);
    assert_eq!(world.photos_on_disk().len(), 6);
    assert!(world.ledger().is_empty());
}

// -- events -----------------------------------------------------------------

#[test]
fn the_event_stream_is_usable_by_a_wrapper() {
    let mut world = setup();
    let (_, events) = pull(&mut world, &options(), false);

    let kinds = kinds(&events);
    assert!(kinds.contains(&"wifi.backend"));
    assert!(kinds.contains(&"http.props"));
    assert!(kinds.contains(&"plan"));
    assert_eq!(kinds.iter().filter(|k| **k == "download.done").count(), 6);

    let plan = events
        .iter()
        .find(|e| e.get("event").and_then(|v| v.as_str()) == Some("plan"))
        .unwrap();
    assert_eq!(plan.get("pending").unwrap().as_i64(), Some(6));
    assert_eq!(plan.get("skipped").unwrap().as_i64(), Some(0));
}

#[test]
fn every_event_is_a_json_object_with_an_event_key() {
    // Wrappers key off this; an event without it is unroutable.
    let mut world = setup();
    let (_, events) = pull(&mut world, &options(), true);
    for event in &events {
        assert!(matches!(event, Json::Object(_)), "{event:?}");
        assert!(
            event.get("event").and_then(|v| v.as_str()).is_some(),
            "{event:?}"
        );
    }
}

// -- the whole run ------------------------------------------------------------

#[test]
fn a_run_wakes_the_camera_and_switches_it_off_again() {
    let mut world = setup();
    // Awake because Bluetooth woke it.
    world
        .table
        .set(p::CHAR_OPERATION_MODE, &[p::OperationMode::BleStartup.as_i8() as u8]);
    let mut options = options();
    options.use_ble = true;
    let (outcome, events) = world.run(&options);
    let outcome = outcome.unwrap();
    assert!(outcome.ok());
    assert_eq!(outcome.downloaded.len(), 6);
    assert_eq!(
        world.gatt,
        vec![
            "connect",
            "power 1",
            "network 1",
            "disconnect",
            "backend",
            "connect",
            "power 0",
            "disconnect"
        ]
    );
    assert_eq!(
        world.actions,
        vec!["current", "join GR_EMULATED emulated0", "restore Home Fibre"]
    );
    let kinds = kinds(&events);
    assert_eq!(kinds.first(), Some(&"ble.scan"));
    assert_eq!(kinds.last(), Some(&"done"));
    let awake = events
        .iter()
        .find(|e| e.get("event").and_then(|v| v.as_str()) == Some("ble.awake"))
        .unwrap();
    assert_eq!(flag(awake, "woken_by_us"), Some(true));
    assert_eq!(awake.get("was").unwrap().as_str(), Some("Off"));
}

#[test]
fn a_camera_in_use_is_left_on() {
    let mut world = setup();
    world
        .table
        .set(p::CHAR_OPERATION_MODE, &[p::OperationMode::Capture.as_i8() as u8]);
    world.table.set(p::CHAR_CAMERA_POWER, &[1]);
    let mut options = options();
    options.use_ble = true;
    let (outcome, _) = world.run(&options);
    assert!(outcome.is_ok());
    assert_eq!(
        world.gatt,
        vec!["connect", "network 1", "disconnect", "backend"]
    );
}

#[test]
fn a_camera_is_left_on_where_that_is_wanted() {
    let mut world = setup();
    world
        .table
        .set(p::CHAR_OPERATION_MODE, &[p::OperationMode::BleStartup.as_i8() as u8]);
    let mut options = options();
    options.use_ble = true;
    options.power_off = false;
    world.run(&options).0.unwrap();
    assert!(!world.gatt.contains(&"power 0".to_string()));
}

#[test]
fn a_low_battery_stops_a_run_before_the_access_point_is_raised() {
    let mut world = setup();
    world.table.set(p::CHAR_BATTERY_LEVEL, &[10, 0]);
    let mut options = options();
    options.use_ble = true;
    let (outcome, _) = world.run(&options);
    assert!(matches!(
        outcome,
        Err(Error::BatteryTooLow {
            level: 10,
            floor: 15
        })
    ));
    assert!(!world.gatt.contains(&"network 1".to_string()));
    assert!(world.gatt.contains(&"disconnect".to_string()));
    assert!(world.actions.is_empty());
}

#[test]
fn a_camera_that_is_not_found_stops_a_run() {
    let mut world = setup();
    world.connect_fails = true;
    let mut options = options();
    options.use_ble = true;
    let (outcome, _) = world.run(&options);
    assert!(matches!(outcome, Err(Error::CameraNotFound)));
    assert!(world.disk.is_empty());
}

#[test]
fn a_run_without_bluetooth_never_connects() {
    let mut world = setup();
    let (outcome, events) = world.run(&options());
    assert!(outcome.unwrap().ok());
    assert_eq!(world.gatt, vec!["backend"]);
    assert_eq!(kinds(&events).first(), Some(&"ble.skipped"));
    assert_eq!(kinds(&events).last(), Some(&"done"));
}

#[test]
fn options_start_from_the_configuration() {
    let env = gr3sync::config::Environment {
        config_home: None,
        home: Some("/home/me".into()),
    };
    let config = Config {
        address: Some("AA".into()),
        min_battery: 40,
        power_off: false,
        ..Default::default()
    };
    let options = Options::from_config(&config, Some("~/x"), &env);
    assert_eq!(options.dest, "/home/me/x");
    assert_eq!(options.address.as_deref(), Some("AA"));
    assert_eq!(options.min_battery, 40);
    assert!(!options.power_off && options.use_ble && options.keep_dirs);
    assert_eq!(options.ap_timeout, 45_000);
    let filter = options.filter();
    assert!(filter.jpeg && filter.raw && filter.last.is_none());
}

#[test]
fn an_outcome_tells_what_happened_in_order() {
    let mut card = Card::new();
    for number in 1..=5usize {
        card.add(
            "100RICOH",
            &format!("R000000{number}.JPG"),
            vec![7; 10 * number],
        );
    }
    card.broken.push("R0000002.JPG".into());
    card.broken.push("R0000004.JPG".into());
    let mut world = World::new(card);
    let (outcome, _) = pull(&mut world, &options(), false);
    assert_eq!(
        outcome.downloaded,
        vec![
            "100RICOH/R0000001.JPG",
            "100RICOH/R0000003.JPG",
            "100RICOH/R0000005.JPG"
        ]
    );
    let failed: Vec<&str> = outcome.failed.iter().map(|f| f.photo.as_str()).collect();
    assert_eq!(failed, vec!["100RICOH/R0000002.JPG", "100RICOH/R0000004.JPG"]);
    assert_eq!(outcome.bytes_written, 10 + 30 + 50);
}
