use std::collections::BTreeMap;

use gr3sync::camera::{
    envelope, partial_path, photos_from, props_from, select, verify_length, Filter, HttpReply,
    Phase, Transfer, Wait, Work, WorkReply,
};
use gr3sync::emulator::Card;
use gr3sync::json::Json;
use gr3sync::procedure::Step;
use gr3sync::{Camera, Error, PhotoRef, Result};

fn refs(keys: &[&str]) -> Vec<PhotoRef> {
    keys.iter()
        .map(|k| {
            let (d, f) = k.split_once('/').unwrap();
            PhotoRef::new(d, f)
        })
        .collect()
}

fn filenames(photos: &[PhotoRef]) -> Vec<String> {
    photos.iter().map(|r| r.filename.clone()).collect()
}

#[test]
fn photo_ref_classification() {
    assert!(PhotoRef::new("100RICOH", "R0000001.JPG").is_jpeg());
    assert!(PhotoRef::new("100RICOH", "R0000001.jpg").is_jpeg());
    assert!(PhotoRef::new("100RICOH", "R0000001.DNG").is_raw());
    assert!(!PhotoRef::new("100RICOH", "R0000001.MOV").is_jpeg());
    assert_eq!(
        PhotoRef::new("100RICOH", "R0000001.JPG").key(),
        "100RICOH/R0000001.JPG"
    );
}

#[test]
fn download_path_differs_for_the_gr2() {
    let camera = Camera::new("192.168.0.1");
    let photo = PhotoRef::new("100RICOH", "R0000001.JPG");
    assert_eq!(
        camera.photo_path(&photo, false),
        "/v1/photos/100RICOH/R0000001.JPG"
    );
    assert_eq!(camera.photo_path(&photo, true), "/100RICOH/R0000001.JPG");
    assert_eq!(
        camera.url("/v1/ping"),
        "http://192.168.0.1/v1/ping".to_string()
    );
    assert_eq!(camera.host(), "192.168.0.1");
}

#[test]
fn a_short_body_is_refused_when_a_length_was_announced() {
    let err = verify_length("100RICOH/a.DNG", 1024, Some(25_000_000)).unwrap_err();
    assert!(err.message().contains("truncated"), "{err:?}");
    assert!(err.message().contains("100RICOH/a.DNG"), "{err:?}");
    assert!(
        err.message().contains("got 1024 of 25000000 bytes"),
        "{err:?}"
    );
}

#[test]
fn an_empty_body_is_refused_even_without_a_length() {
    assert!(verify_length("100RICOH/a.JPG", 0, None).is_err());
}

#[test]
fn a_matching_length_passes_and_a_close_delimited_body_is_accepted() {
    assert!(verify_length("a", 100, Some(100)).is_ok());
    // No Content-Length means nothing to compare against; refusing here
    // would reject every close-delimited response outright.
    assert!(verify_length("a", 100, None).is_ok());
}

#[test]
fn partial_file_sits_beside_the_destination() {
    assert_eq!(
        partial_path("/tmp/100RICOH/R0000001.JPG"),
        "/tmp/100RICOH/R0000001.JPG.part"
    );
}

#[test]
fn an_error_envelope_is_surfaced_even_on_http_200() {
    let body = br#"{"errCode":404,"errMsg":"not found"}"#;
    let err = Camera::parse_envelope("/v1/photos/x/y/info", 200, body).unwrap_err();
    assert!(matches!(err, Error::CameraApi { code: 404, .. }), "{err:?}");
}

#[test]
fn an_error_envelope_is_preferred_over_the_status_line() {
    // The camera is not consistent about pairing its errCode with a
    // matching HTTP status; the body is the authoritative one.
    let body = br#"{"errCode":404,"errMsg":"not found"}"#;
    let err = Camera::parse_envelope("/v1/x", 404, body).unwrap_err();
    assert!(matches!(err, Error::CameraApi { code: 404, .. }), "{err:?}");
}

#[test]
fn a_non_json_body_names_the_endpoint() {
    let err = Camera::parse_envelope("/v1/props", 500, b"<html>oops</html>").unwrap_err();
    assert!(err.message().contains("/v1/props"), "{err:?}");
    assert!(err.message().contains("<html>oops</html>"), "{err:?}");
}

#[test]
fn a_body_is_judged_once_it_is_parsed() {
    let object = |members: Vec<(&str, Json)>| {
        Some(Json::Object(
            members.into_iter().map(|(k, v)| (k.to_string(), v)).collect(),
        ))
    };
    // No code at all is fine on a good status, and not on a bad one.
    assert!(envelope("/x", 200, b"{}", object(vec![])).is_ok());
    let err = envelope("/x", 500, b"{}", object(vec![])).unwrap_err();
    assert!(matches!(err, Error::Http(_)), "{err:?}");
    let fine = object(vec![("errCode", Json::Number(Some(200)))]);
    assert!(envelope("/x", 200, b"", fine).is_ok());
    assert!(envelope("/x", 200, b"not json", None).is_err());
}

#[test]
fn select_defaults_to_everything() {
    let all = refs(&["100RICOH/a.JPG", "100RICOH/a.DNG", "101RICOH/b.MOV"]);
    assert_eq!(select(&all, Filter::default()).len(), 3);
}

#[test]
fn select_filters_by_format() {
    let all = refs(&["100RICOH/a.JPG", "100RICOH/a.DNG"]);
    let jpeg_only = select(
        &all,
        Filter {
            raw: false,
            ..Default::default()
        },
    );
    assert_eq!(filenames(&jpeg_only), ["a.JPG"]);
    let raw_only = select(
        &all,
        Filter {
            jpeg: false,
            ..Default::default()
        },
    );
    assert_eq!(filenames(&raw_only), ["a.DNG"]);
}

#[test]
fn last_counts_selected_files_not_listing_entries() {
    // `--last 2 --jpg` must yield two JPEGs, not two of the last four files.
    let all = refs(&[
        "100RICOH/a.JPG",
        "100RICOH/a.DNG",
        "100RICOH/b.JPG",
        "100RICOH/b.DNG",
        "100RICOH/c.JPG",
        "100RICOH/c.DNG",
    ]);
    let picked = select(
        &all,
        Filter {
            raw: false,
            last: Some(2),
            ..Default::default()
        },
    );
    assert_eq!(filenames(&picked), ["b.JPG", "c.JPG"]);
}

#[test]
fn last_larger_than_the_card_is_not_an_error() {
    let all = refs(&["100RICOH/a.JPG"]);
    assert_eq!(
        select(
            &all,
            Filter {
                last: Some(99),
                ..Default::default()
            }
        )
        .len(),
        1
    );
    assert_eq!(
        select(
            &all,
            Filter {
                last: Some(0),
                ..Default::default()
            }
        )
        .len(),
        0
    );
}

#[test]
fn select_filters_by_directory() {
    let all = refs(&["100RICOH/a.JPG", "101RICOH/b.JPG"]);
    let picked = select(
        &all,
        Filter {
            directory: Some("101RICOH"),
            ..Default::default()
        },
    );
    assert_eq!(picked.len(), 1);
    assert_eq!(picked[0].directory, "101RICOH");
}

// -- the client against an emulated card --------------------------------

/// A card behind a host name, and a disk to download to.
struct World {
    card: Card,
    host: &'static str,
    disk: BTreeMap<String, Vec<u8>>,
    folders: Vec<String>,
}

/// The path that a URL names on a host; nothing where nobody listens there.
fn path_on(host: &str, url: &str) -> Option<String> {
    let rest = url.strip_prefix("http://")?.strip_prefix(host)?;
    Some(rest.to_string())
}

impl World {
    fn new(card: Card) -> Self {
        World {
            card,
            host: "127.0.0.1:8080",
            disk: BTreeMap::new(),
            folders: Vec::new(),
        }
    }

    fn camera(&self) -> Camera {
        Camera::new(self.host)
    }

    fn get(&mut self, camera: &Camera, path: &str) -> HttpReply {
        match path_on(self.host, &camera.url(path)) {
            Some(path) => {
                let response = self.card.serve("GET", &path);
                HttpReply::Answered {
                    status: response.status,
                    body: response.body,
                }
            }
            None => HttpReply::Failed("connection refused".into()),
        }
    }

    /// Download a file. A body that ends early fails the copy where the
    /// transport notices, and is only short where it does not.
    fn download(&mut self, transfer: &Transfer, transport_notices: bool) -> Result<u64> {
        let mut phase = Phase::Folder;
        let mut body = Vec::new();
        let mut announced = 0u128;
        let mut open = String::new();
        loop {
            let reply = match transfer.work(&phase) {
                Work::CreateFolder(path) => {
                    self.folders.push(path);
                    WorkReply::Done
                }
                Work::Get(url) => match path_on(self.host, &url) {
                    Some(path) => {
                        let response = self.card.serve("GET", &path);
                        body = response.body;
                        announced = response.announced;
                        WorkReply::Response {
                            status: response.status,
                            length: Some(announced.to_string()),
                        }
                    }
                    None => WorkReply::Failed("connection refused".into()),
                },
                Work::CreateFile(path) => {
                    self.disk.insert(path.clone(), Vec::new());
                    open = path;
                    WorkReply::Done
                }
                Work::Copy => {
                    self.disk.insert(open.clone(), body.clone());
                    if transport_notices && announced != body.len() as u128 {
                        WorkReply::Failed("body ended early".into())
                    } else {
                        WorkReply::Copied(body.len() as u64)
                    }
                }
                Work::Rename { from, to } => {
                    let body = self.disk.remove(&from).unwrap();
                    self.disk.insert(to, body);
                    WorkReply::Done
                }
                Work::Remove(path) => {
                    self.disk.remove(&path);
                    WorkReply::Done
                }
            };
            match transfer.next(phase, reply) {
                Step::More(next) => phase = next,
                Step::Done(result) => return result,
            }
        }
    }
}

#[test]
fn ping_and_props() {
    let mut world = World::new(Card::with_pairs(3));
    let camera = world.camera();
    let reply = world.get(&camera, "/v1/ping");
    assert!(camera.ping(reply));

    let reply = world.get(&camera, "/v1/props");
    let props = camera.props(reply).unwrap();
    assert_eq!(props.model, "RICOH GR III");
    assert_eq!(props.battery, Some(88));
    assert_eq!(props.firmware.as_deref(), Some("1.90"));
    assert!(!props.is_legacy_path());
}

#[test]
fn ping_is_false_when_nothing_is_listening() {
    // A refused connection must be a plain `false`, not an error, so callers
    // can poll with it.
    let mut world = World::new(Card::new());
    let camera = Camera::new("127.0.0.1:1");
    let reply = world.get(&camera, "/v1/ping");
    assert!(!camera.ping(reply));
}

#[test]
fn an_unreachable_camera_reports_a_timeout_naming_the_host() {
    let camera = Camera::new("127.0.0.1:1");
    let up = camera.ping(HttpReply::Failed("connection refused".into()));
    let Wait::GiveUp(err) = camera.wait_until_up(up, 0, 0) else {
        panic!("a zero timeout means: check now");
    };
    assert!(matches!(err, Error::CameraUnreachable { .. }), "{err:?}");
    assert!(err.message().contains("127.0.0.1:1"), "{err:?}");
    assert!(err.message().contains("did not answer"), "{err:?}");
}

#[test]
fn waiting_goes_on_until_the_camera_answers_or_time_is_up() {
    let camera = Camera::new("192.168.0.1");
    assert!(matches!(camera.wait_until_up(true, 90_000, 0), Wait::Up));
    assert!(matches!(
        camera.wait_until_up(false, 44_999, 45_000),
        Wait::Again(700)
    ));
    assert!(matches!(
        camera.wait_until_up(false, 45_000, 45_000),
        Wait::GiveUp(Error::CameraUnreachable { secs: 45, .. })
    ));
}

#[test]
fn photos_are_listed_in_card_order() {
    let mut world = World::new(Card::with_pairs(3));
    let camera = world.camera();
    let reply = world.get(&camera, "/v1/photos");
    let keys: Vec<String> = camera
        .photos(reply)
        .unwrap()
        .iter()
        .map(|p| p.key())
        .collect();
    assert_eq!(keys.len(), 6);
    assert_eq!(
        &keys[..4],
        &[
            "100RICOH/R0000001.DNG",
            "100RICOH/R0000001.JPG",
            "100RICOH/R0000002.DNG",
            "100RICOH/R0000002.JPG",
        ]
    );
}

#[test]
fn download_writes_the_body_and_leaves_no_part_file() {
    let mut world = World::new(Card::with_pairs(3));
    let target = "/dest/out/R0000001.JPG";
    let transfer = world.camera().download(
        &PhotoRef::new("100RICOH", "R0000001.JPG"),
        target,
        false,
    );

    let written = world.download(&transfer, true).unwrap();

    assert_eq!(written, world.disk[target].len() as u64);
    assert!(world.disk[target].starts_with(b"jpeg"));
    assert_eq!(world.folders, vec!["/dest/out"]);
    assert!(!world.disk.keys().any(|path| path.ends_with(".part")));
}

#[test]
fn a_body_larger_than_ten_megabytes_arrives_intact() {
    // Every DNG this camera produces is larger than the cap of a buffered read.
    let mut card = Card::new();
    let body = vec![0xABu8; 12 * 1024 * 1024];
    card.add("100RICOH", "R0000001.DNG", body.clone());
    let mut world = World::new(card);
    let target = "/dest/R0000001.DNG";
    let transfer = world.camera().download(
        &PhotoRef::new("100RICOH", "R0000001.DNG"),
        target,
        false,
    );

    let written = world.download(&transfer, true).unwrap();

    assert_eq!(written as usize, body.len());
    assert_eq!(world.disk[target].len(), body.len());
}

#[test]
fn an_interrupted_download_leaves_nothing_behind() {
    // A cut-short transfer must not leave a truncated file that a later run
    // would skip as "already downloaded". Which layer notices is not the point:
    // the failure is loud and the disk is left clean either way.
    for transport_notices in [true, false] {
        let mut card = Card::new();
        card.add("100RICOH", "R0000009.JPG", vec![b'x'; 4096]);
        card.broken.push("R0000009.JPG".into());
        let mut world = World::new(card);
        let target = "/dest/R0000009.JPG";
        let transfer = world.camera().download(
            &PhotoRef::new("100RICOH", "R0000009.JPG"),
            target,
            false,
        );

        let result = world.download(&transfer, transport_notices);

        assert!(
            result.is_err(),
            "a cut-short transfer must not report success"
        );
        assert!(
            !world.disk.contains_key(target),
            "no truncated file may survive"
        );
        assert!(
            world.disk.is_empty(),
            "no .part file may survive either"
        );
    }
}

#[test]
fn a_file_that_is_not_there_is_an_error() {
    let mut world = World::new(Card::new());
    let transfer = world.camera().download(
        &PhotoRef::new("100RICOH", "nope.JPG"),
        "/dest/nope.JPG",
        false,
    );
    let err = world.download(&transfer, true).unwrap_err();
    assert!(err.message().contains("HTTP 404"), "{err:?}");
    assert!(world.disk.is_empty());
}

#[test]
fn a_file_at_the_root_goes_to_the_current_directory() {
    let transfer = Camera::new("h").download(&PhotoRef::new("d", "f.JPG"), "f.JPG", false);
    assert_eq!(transfer.partial, "f.JPG.part");
    let Work::CreateFolder(folder) = transfer.work(&Phase::Folder) else {
        panic!("the folder comes first");
    };
    assert_eq!(folder, "");
}

#[test]
fn an_api_error_code_is_surfaced_with_its_number() {
    let mut world = World::new(Card::new());
    let camera = world.camera();
    let photo = PhotoRef::new("100RICOH", "nope.JPG");
    let path = camera.photo_info_path(&photo);
    let reply = world.get(&camera, &path);
    let err = camera.photo_info(&photo, reply).unwrap_err();
    assert!(matches!(err, Error::CameraApi { code: 404, .. }), "{err:?}");
}

#[test]
fn a_gr2_is_detected_and_uses_the_legacy_download_path() {
    let mut card = Card::new();
    card.model = "RICOH GR II".into();
    let mut world = World::new(card);
    let camera = world.camera();
    let reply = world.get(&camera, "/v1/props");
    assert!(camera.props(reply).unwrap().is_legacy_path());
}

#[test]
fn finish_wlan_tolerates_a_dead_connection() {
    // The access point goes down while answering, so there is nothing to make
    // of a reply: only the request is described.
    let post = Camera::new("127.0.0.1:1").finish_wlan();
    assert_eq!(post.url, "http://127.0.0.1:1/v1/device/wlan/finish");
    assert_eq!(post.body, "{}");
    let post = Camera::new("127.0.0.1:1").finish_device();
    assert_eq!(post.url, "http://127.0.0.1:1/v1/device/finish");
    assert_eq!(post.content_type, "application/json");
}

#[test]
fn an_empty_card_lists_nothing_without_erroring() {
    let mut world = World::new(Card::new());
    let camera = world.camera();
    let reply = world.get(&camera, "/v1/photos");
    assert!(camera.photos(reply).unwrap().is_empty());
}

#[test]
fn a_listing_without_directories_is_an_error() {
    let value = Camera::parse_envelope("/v1/photos", 200, br#"{"errCode":200,"other":1}"#).unwrap();
    let err = photos_from(&value).unwrap_err();
    assert!(err.message().contains("dirs"), "{err:?}");
}

#[test]
fn props_take_either_spelling() {
    let value = Camera::parse_envelope(
        "/v1/props",
        200,
        br#"{"errCode":200,"model":"RICOH GR IIIx","version":"1.41","serialNo":"7","battery":40}"#,
    )
    .unwrap();
    let props = props_from(&value);
    assert_eq!(props.model, "RICOH GR IIIx");
    assert_eq!(props.firmware.as_deref(), Some("1.41"));
    assert_eq!(props.serial.as_deref(), Some("7"));
    assert_eq!(props.battery, Some(40));
}

#[test]
fn a_reply_that_never_came_names_the_endpoint() {
    let camera = Camera::new("h");
    let err = camera
        .props(HttpReply::Broken("reset".into()))
        .unwrap_err();
    assert_eq!(
        err.message(),
        "GET /v1/props -> reading body: reset"
    );
    let err = camera.photos(HttpReply::Failed("refused".into())).unwrap_err();
    assert!(err.message().contains("GET /v1/photos -> refused"), "{err:?}");
}

#[test]
fn a_phase_accepts_its_own_replies_and_any_failure() {
    let photo = PhotoRef::new("100RICOH", "R0000001.JPG");
    let transfer = Camera::new("192.168.0.1").download(&photo, "/d/R0000001.JPG", false);
    let done = WorkReply::Done;
    let failed = WorkReply::Failed("boom".into());
    let response = WorkReply::Response {
        status: 200,
        length: None,
    };
    let copied = WorkReply::Copied(1);
    let phases = [
        (Phase::Folder, &done),
        (Phase::Request, &response),
        (Phase::Create { announced: None }, &done),
        (Phase::Copy { announced: None }, &copied),
        (Phase::Rename { written: 1 }, &done),
    ];
    for (phase, own) in &phases {
        assert!(transfer.accepts(phase, own));
        assert!(transfer.accepts(phase, &failed));
    }
    assert!(!transfer.accepts(&Phase::Request, &done));
    assert!(!transfer.accepts(&Phase::Folder, &copied));
    assert!(!transfer.accepts(&Phase::Copy { announced: None }, &response));
}
