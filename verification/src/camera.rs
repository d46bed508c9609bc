//! The RICOH GR III Wi-Fi API.
//!
//! The camera runs an unauthenticated HTTP server on `192.168.0.1:80` while its
//! wireless LAN is in AP mode. The endpoint list was recovered from the
//! firmware image by Dima Kogan (<https://notes.secretsauce.net/notes/2022/06/16_ricoh-gr-iiix-80211-reverse-engineering.html>)
//! and the JSON shapes match what `clyang/GRsync` has been consuming in
//! practice.
//!
//! What is asked of the camera is **read-only with respect to the SD card**.
//! The only state it changes is bringing the access point and the device down
//! at the end of a sync.
//!
//! Nothing here touches a socket: a [`Camera`] says what to request, and makes
//! sense of the reply.

use crate::error;
use crate::error::{Error, ErrorView, Result, ResultView};
use crate::json;
use crate::json::{Json, JsonView};
use crate::paths;
use crate::procedure::{Step, StepView};
use crate::text;
use vstd::prelude::*;

verus! {

pub const DEFAULT_HOST: &'static str = "192.168.0.1";

/// A single file on the camera's card.
#[derive(Debug, PartialEq, Eq)]
pub struct PhotoRef {
    pub directory: String,
    pub filename: String,
}

/// A file on the card, mathematically.
#[verifier::ext_equal]
pub struct PhotoView {
    pub directory: Seq<char>,
    pub filename: Seq<char>,
}

impl View for PhotoRef {
    type V = PhotoView;

    open spec fn view(&self) -> PhotoView {
        PhotoView { directory: self.directory@, filename: self.filename@ }
    }
}

impl DeepView for PhotoRef {
    type V = PhotoView;

    open spec fn deep_view(&self) -> PhotoView {
        self@
    }
}

impl Clone for PhotoRef {
    fn clone(&self) -> (copy: Self)
        ensures
            copy == *self,
    {
        PhotoRef { directory: self.directory.clone(), filename: self.filename.clone() }
    }
}

impl PhotoView {
    /// Stable identity, used for both the local path and the ledger.
    pub open spec fn key(self) -> Seq<char> {
        self.directory.push('/') + self.filename
    }

    /// What follows the last dot of the name, in capitals.
    pub open spec fn extension(self) -> Seq<char> {
        let dot = text::rfind(self.filename, '.');
        if dot < 0 {
            seq![]
        } else {
            text::ascii_upper(self.filename.skip(dot + 1))
        }
    }

    pub open spec fn is_raw(self) -> bool {
        self.extension() == "DNG"@ || self.extension() == "RAW"@
    }

    pub open spec fn is_jpeg(self) -> bool {
        self.extension() == "JPG"@ || self.extension() == "JPEG"@
    }
}

impl PhotoRef {
    pub fn new(directory: &str, filename: &str) -> (photo: Self)
        ensures
            photo@ == (PhotoView { directory: directory@, filename: filename@ }),
    {
        PhotoRef { directory: directory.to_owned(), filename: filename.to_owned() }
    }

    /// Stable identity, used for both the local path and the ledger.
    pub fn key(&self) -> (key: String)
        ensures
            key@ == self@.key(),
    {
        let mut key = self.directory.clone();
        key.push('/');
        key.append(self.filename.as_str());
        key
    }

    pub fn extension(&self) -> (extension: String)
        ensures
            extension@ == self@.extension(),
    {
        let chars = text::chars_of(self.filename.as_str());
        let count: usize = chars.len();
        match text::rfind_in(&chars, '.') {
            Some(dot) => {
                let tail = text::text_of(&chars, dot + 1, count);
                assert(tail@ == self@.filename.skip(dot + 1));
                text::to_ascii_upper(tail.as_str())
            },
            None => {
                let none = String::new();
                assert(none@ == self@.extension());
                none
            },
        }
    }

    pub fn is_raw(&self) -> (yes: bool)
        ensures
            yes == self@.is_raw(),
    {
        let extension = self.extension();
        text::same(extension.as_str(), "DNG") || text::same(extension.as_str(), "RAW")
    }

    pub fn is_jpeg(&self) -> (yes: bool)
        ensures
            yes == self@.is_jpeg(),
    {
        let extension = self.extension();
        text::same(extension.as_str(), "JPG") || text::same(extension.as_str(), "JPEG")
    }
}

#[derive(Debug)]
pub struct CameraProps {
    pub model: String,
    pub firmware: Option<String>,
    pub serial: Option<String>,
    pub battery: Option<i64>,
}

/// What the camera says of itself, mathematically.
#[verifier::ext_equal]
pub struct PropsView {
    pub model: Seq<char>,
    pub firmware: Option<Seq<char>>,
    pub serial: Option<Seq<char>>,
    pub battery: Option<i64>,
}

impl View for CameraProps {
    type V = PropsView;

    open spec fn view(&self) -> PropsView {
        PropsView {
            model: self.model@,
            firmware: self.firmware.deep_view(),
            serial: self.serial.deep_view(),
            battery: self.battery,
        }
    }
}

impl DeepView for CameraProps {
    type V = PropsView;

    open spec fn deep_view(&self) -> PropsView {
        self@
    }
}

impl PropsView {
    /// The GR II serves image bodies from the bare `/{dir}/{file}` path instead
    /// of `/v1/photos/{dir}/{file}`.
    pub open spec fn is_legacy_path(self) -> bool {
        self.model == "RICOH GR II"@
    }
}

impl CameraProps {
    pub fn is_legacy_path(&self) -> (yes: bool)
        ensures
            yes == self@.is_legacy_path(),
    {
        text::same(self.model.as_str(), "RICOH GR II")
    }
}

/// What came of a request.
#[derive(Debug)]
pub enum HttpReply {
    /// No response, and why.
    Failed(String),
    /// A response whose body could not be read, and why.
    Broken(String),
    Answered { status: u16, body: Vec<u8> },
}

#[verifier::ext_equal]
pub enum HttpReplyView {
    Failed(Seq<char>),
    Broken(Seq<char>),
    Answered { status: u16, body: Seq<u8> },
}

impl View for HttpReply {
    type V = HttpReplyView;

    open spec fn view(&self) -> HttpReplyView {
        match *self {
            HttpReply::Failed(reason) => HttpReplyView::Failed(reason@),
            HttpReply::Broken(reason) => HttpReplyView::Broken(reason@),
            HttpReply::Answered { status, body } => HttpReplyView::Answered { status, body: body@ },
        }
    }
}

/// The start of a body that was not JSON, as shown to a person.
pub open spec fn excerpt(body: Seq<u8>) -> Seq<char> {
    text::quoted_form(
        text::utf8_lossy(
            body.take(
                if body.len() < 200 {
                    body.len() as int
                } else {
                    200
                },
            ),
        ),
    )
}

/// What a response means, given the JSON value that its body holds: an error
/// code in the envelope counts before the HTTP status.
pub open spec fn enveloped(
    path: Seq<char>,
    status: u16,
    body: Seq<u8>,
    document: Option<JsonView>,
) -> ResultView<JsonView> {
    match document {
        None => Err(
            ErrorView::Http(
                path + " -> HTTP "@ + text::decimal(status as nat)
                    + ", response was not JSON: "@ + excerpt(body),
            ),
        ),
        Some(value) => {
            let code = match json::integer_in(json::member(value, "errCode"@)) {
                Some(code) => code,
                None => 200,
            };
            if code != 200 {
                Err(
                    ErrorView::CameraApi {
                        code,
                        message: match json::text_in(json::member(value, "errMsg"@)) {
                            Some(message) => message,
                            None => seq![],
                        },
                        endpoint: path,
                    },
                )
            } else if status != 200 {
                Err(ErrorView::Http(path + " -> HTTP "@ + text::decimal(status as nat)))
            } else {
                Ok(value)
            }
        },
    }
}

fn member_text(value: &Json, key: &str) -> (text: Option<String>)
    ensures
        text.deep_view() == json::text_in(json::member(value@, key@)),
{
    match value.get(key) {
        Some(member) => match member.as_str() {
            Some(text) => Some(text.to_owned()),
            None => None,
        },
        None => None,
    }
}

fn member_integer(value: &Json, key: &str) -> (number: Option<i64>)
    ensures
        number == json::integer_in(json::member(value@, key@)),
{
    match value.get(key) {
        Some(member) => member.as_i64(),
        None => None,
    }
}

/// Judge a response by its status and by the JSON value that its body holds.
///
/// The camera puts its real error in the JSON envelope and is not consistent
/// about pairing it with a matching HTTP status; the body is the authoritative
/// one.
pub fn envelope(path: &str, status: u16, body: &[u8], document: Option<Json>) -> (value: Result<
    Json,
>)
    ensures
        error::seen(value) == enveloped(path@, status, body@, document.deep_view()),
{
    match document {
        None => {
            let shown: usize = if body.len() < 200 {
                body.len()
            } else {
                200
            };
            let start = vstd::slice::slice_subrange(body, 0, shown);
            assert(start@ == body@.take(shown as int));
            let mut detail = path.to_owned();
            detail.append(" -> HTTP ");
            detail.append(text::decimal_text(status as u64).as_str());
            detail.append(", response was not JSON: ");
            detail.append(text::quoted(text::lossy_text(start).as_str()).as_str());
            Err(Error::Http(detail))
        },
        Some(value) => {
            let code: i64 = match member_integer(&value, "errCode") {
                Some(code) => code,
                None => 200,
            };
            if code != 200 {
                let message = match member_text(&value, "errMsg") {
                    Some(message) => message,
                    None => {
                        let none = String::new();
                        assert(none@ == Seq::<char>::empty());
                        none
                    },
                };
                Err(Error::CameraApi { code, message, endpoint: path.to_owned() })
            } else if status != 200 {
                let mut detail = path.to_owned();
                detail.append(" -> HTTP ");
                detail.append(text::decimal_text(status as u64).as_str());
                Err(Error::Http(detail))
            } else {
                Ok(value)
            }
        },
    }
}

/// What a reply to a request for JSON means.
pub open spec fn json_reply(path: Seq<char>, reply: HttpReplyView) -> ResultView<JsonView> {
    match reply {
        HttpReplyView::Failed(reason) => Err(
            ErrorView::Http("GET "@ + path + " -> "@ + reason),
        ),
        HttpReplyView::Broken(reason) => Err(
            ErrorView::Http("GET "@ + path + " -> reading body: "@ + reason),
        ),
        HttpReplyView::Answered { status, body } => enveloped(
            path,
            status,
            body,
            json::json_document(body),
        ),
    }
}

/// The camera that answers at an address.
pub struct Camera {
    host: String,
}

impl View for Camera {
    type V = Seq<char>;

    closed spec fn view(&self) -> Seq<char> {
        self.host@
    }
}

/// The URL of a path on a host.
pub open spec fn url_of(host: Seq<char>, path: Seq<char>) -> Seq<char> {
    "http://"@ + host + "/"@ + text::without_leading_slashes(path)
}

/// Where an image's body is served.
pub open spec fn body_path(photo: PhotoView, legacy: bool) -> Seq<char> {
    if legacy {
        "/"@ + photo.directory + "/"@ + photo.filename
    } else {
        "/v1/photos/"@ + photo.directory + "/"@ + photo.filename
    }
}

/// Where an image's description is served.
pub open spec fn info_path(photo: PhotoView) -> Seq<char> {
    "/v1/photos/"@ + photo.directory + "/"@ + photo.filename + "/info"@
}

/// A request that changes the camera's state.
#[derive(Debug)]
pub struct Post {
    pub url: String,
    pub content_type: &'static str,
    pub body: &'static str,
}

/// Whether to go on asking a camera that may not be up yet.
#[derive(Debug)]
pub enum Wait {
    Up,
    /// Ask again after this many milliseconds.
    Again(u64),
    GiveUp(Error),
}

#[verifier::ext_equal]
pub enum WaitView {
    Up,
    Again(u64),
    GiveUp(ErrorView),
}

impl View for Wait {
    type V = WaitView;

    open spec fn view(&self) -> WaitView {
        match *self {
            Wait::Up => WaitView::Up,
            Wait::Again(millis) => WaitView::Again(millis),
            Wait::GiveUp(error) => WaitView::GiveUp(error@),
        }
    }
}

/// What follows a probe, `elapsed` milliseconds into waiting for up to
/// `timeout` of them.
pub open spec fn waited(host: Seq<char>, up: bool, elapsed: u64, timeout: u64) -> WaitView {
    if up {
        WaitView::Up
    } else if elapsed >= timeout {
        WaitView::GiveUp(ErrorView::CameraUnreachable { host, secs: timeout / 1000 })
    } else {
        WaitView::Again(700)
    }
}

impl Camera {
    pub fn new(host: &str) -> (camera: Self)
        ensures
            camera@ == host@,
    {
        Camera { host: host.to_owned() }
    }

    pub fn host(&self) -> (host: &str)
        ensures
            host@ == self@,
    {
        self.host.as_str()
    }

    /// The URL of a path on this camera.
    pub fn url(&self, path: &str) -> (url: String)
        ensures
            url@ == url_of(self@, path@),
    {
        let mut url = "http://".to_owned();
        url.append(self.host.as_str());
        url.append("/");
        url.append(text::trim_leading_slashes(path).as_str());
        url
    }

    /// Make sense of the reply to a request for JSON.
    pub fn get_json(&self, path: &str, reply: HttpReply) -> (value: Result<Json>)
        ensures
            error::seen(value) == json_reply(path@, reply@),
    {
        match reply {
            HttpReply::Failed(reason) => {
                let mut detail = "GET ".to_owned();
                detail.append(path);
                detail.append(" -> ");
                detail.append(reason.as_str());
                Err(Error::Http(detail))
            },
            HttpReply::Broken(reason) => {
                let mut detail = "GET ".to_owned();
                detail.append(path);
                detail.append(" -> reading body: ");
                detail.append(reason.as_str());
                Err(Error::Http(detail))
            },
            HttpReply::Answered { status, body } => Self::parse_envelope(
                path,
                status,
                body.as_slice(),
            ),
        }
    }

    /// Judge a response by its status and its body.
    pub fn parse_envelope(path: &str, status: u16, body: &[u8]) -> (value: Result<Json>)
        ensures
            error::seen(value) == enveloped(path@, status, body@, json::json_document(body@)),
    {
        let document = json::read_json(body);
        envelope(path, status, body, document)
    }

    /// Whether the camera's HTTP server answered. Never errors, so it can be
    /// used directly as a polling predicate. The request is `/v1/ping`.
    pub fn ping(&self, reply: HttpReply) -> (up: bool)
        ensures
            up == json_reply("/v1/ping"@, reply@) is Ok,
    {
        self.get_json("/v1/ping", reply).is_ok()
    }

    /// Wait until [`Camera::ping`] succeeds. Always probes at least once, so a
    /// zero timeout means "check now" rather than "give up immediately".
    ///
    /// `up` is what the probe just made gave, `elapsed` and `timeout` are
    /// milliseconds.
    pub fn wait_until_up(&self, up: bool, elapsed: u64, timeout: u64) -> (wait: Wait)
        ensures
            wait@ == waited(self@, up, elapsed, timeout),
    {
        if up {
            Wait::Up
        } else if elapsed >= timeout {
            Wait::GiveUp(
                Error::CameraUnreachable { host: self.host.clone(), secs: timeout / 1000 },
            )
        } else {
            Wait::Again(700)
        }
    }

    /// Where an image's body is served.
    pub fn photo_path(&self, photo: &PhotoRef, legacy: bool) -> (path: String)
        ensures
            path@ == body_path(photo@, legacy),
    {
        let mut path = if legacy {
            "/".to_owned()
        } else {
            "/v1/photos/".to_owned()
        };
        path.append(photo.directory.as_str());
        path.append("/");
        path.append(photo.filename.as_str());
        path
    }

    /// Where an image's description is served.
    pub fn photo_info_path(&self, photo: &PhotoRef) -> (path: String)
        ensures
            path@ == info_path(photo@),
    {
        let mut path = "/v1/photos/".to_owned();
        path.append(photo.directory.as_str());
        path.append("/");
        path.append(photo.filename.as_str());
        path.append("/info");
        path
    }

    /// Make sense of the reply to a request for an image's description.
    pub fn photo_info(&self, photo: &PhotoRef, reply: HttpReply) -> (info: Result<Json>)
        ensures
            error::seen(info) == json_reply(info_path(photo@), reply@),
    {
        self.get_json(self.photo_info_path(photo).as_str(), reply)
    }

    /// Ask the camera to drop its access point.
    ///
    /// The AP dies mid-response, so a transport-level failure of this request is
    /// the expected outcome.
    pub fn finish_wlan(&self) -> (post: Post)
        ensures
            post.url@ == url_of(self@, "/v1/device/wlan/finish"@),
            post.content_type@ == "application/json"@,
            post.body@ == "{}"@,
    {
        self.post_empty("/v1/device/wlan/finish")
    }

    /// Ask the camera to power itself off. Same caveat as [`Camera::finish_wlan`].
    pub fn finish_device(&self) -> (post: Post)
        ensures
            post.url@ == url_of(self@, "/v1/device/finish"@),
            post.content_type@ == "application/json"@,
            post.body@ == "{}"@,
    {
        self.post_empty("/v1/device/finish")
    }

    fn post_empty(&self, path: &str) -> (post: Post)
        ensures
            post.url@ == url_of(self@, path@),
            post.content_type@ == "application/json"@,
            post.body@ == "{}"@,
    {
        Post { url: self.url(path), content_type: "application/json", body: "{}" }
    }
}

pub open spec fn or_else<T>(first: Option<T>, second: Option<T>) -> Option<T> {
    if first is Some {
        first
    } else {
        second
    }
}

/// What a description of the camera says.
pub open spec fn props_of(value: JsonView) -> PropsView {
    PropsView {
        model: match json::text_in(json::member(value, "model"@)) {
            Some(model) => model,
            None => seq![],
        },
        firmware: or_else(
            json::text_in(json::member(value, "firmwareVersion"@)),
            json::text_in(json::member(value, "version"@)),
        ),
        serial: or_else(
            json::text_in(json::member(value, "serialNo"@)),
            json::text_in(json::member(value, "serialNumber"@)),
        ),
        battery: json::integer_in(json::member(value, "battery"@)),
    }
}

/// Read a description of the camera.
pub fn props_from(value: &Json) -> (props: CameraProps)
    ensures
        props@ == props_of(value@),
{
    let model = match member_text(value, "model") {
        Some(model) => model,
        None => {
            let none = String::new();
            assert(none@ == Seq::<char>::empty());
            none
        },
    };
    let firmware = match member_text(value, "firmwareVersion") {
        Some(firmware) => Some(firmware),
        None => member_text(value, "version"),
    };
    let serial = match member_text(value, "serialNo") {
        Some(serial) => Some(serial),
        None => member_text(value, "serialNumber"),
    };
    CameraProps { model, firmware, serial, battery: member_integer(value, "battery") }
}

/// The files that a directory's list names, in its order. What is not a text, or
/// is an empty one, names none.
pub open spec fn files_named(directory: Seq<char>, files: Seq<JsonView>) -> Seq<PhotoView>
    decreases files.len(),
{
    if files.len() == 0 {
        seq![]
    } else {
        let before = files_named(directory, files.drop_last());
        match files.last() {
            JsonView::Text(filename) => if filename.len() == 0 {
                before
            } else {
                before.push(PhotoView { directory, filename })
            },
            _ => before,
        }
    }
}

/// The files of one directory of the listing. An entry without a name or a list
/// of files has none.
pub open spec fn files_of(entry: JsonView) -> Seq<PhotoView> {
    match (
        json::text_in(json::member(entry, "name"@)),
        json::items_in(json::member(entry, "files"@)),
    ) {
        (Some(directory), Some(files)) => files_named(directory, files),
        _ => seq![],
    }
}

/// The files of a listing's directories, in the order the camera reports them.
pub open spec fn files_in(dirs: Seq<JsonView>) -> Seq<PhotoView>
    decreases dirs.len(),
{
    if dirs.len() == 0 {
        seq![]
    } else {
        files_in(dirs.drop_last()) + files_of(dirs.last())
    }
}

/// A list of texts, as its `Debug` form has it.
pub open spec fn listed(texts: Seq<Seq<char>>) -> Seq<char> {
    "["@ + text::joined(texts.map_values(|text: Seq<char>| text::quoted_form(text)), ", "@) + "]"@
}

/// What a listing of the card says. One that cannot be read is an error, never
/// an empty card.
pub open spec fn photos_of(value: JsonView) -> ResultView<Seq<PhotoView>> {
    match json::items_in(json::member(value, "dirs"@)) {
        Some(dirs) => Ok(files_in(dirs)),
        None => Err(
            ErrorView::Http(
                "/v1/photos -> missing 'dirs' list, got keys "@ + listed(json::keys_of(value)),
            ),
        ),
    }
}

fn list_text(texts: &Vec<String>) -> (list: String)
    ensures
        list@ == listed(texts.deep_view()),
{
    let mut forms: Vec<String> = Vec::new();
    let mut i: usize = 0;
    while i < texts.len()
        invariant
            i <= texts@.len(),
            forms@.len() == i,
            forall|j: int| 0 <= j < i ==> (#[trigger] forms@[j])@ == text::quoted_form(texts@[j]@),
        decreases texts@.len() - i,
    {
        forms.push(text::quoted(texts[i].as_str()));
        i += 1;
    }
    assert(forms.deep_view() == texts.deep_view().map_values(
        |text: Seq<char>| text::quoted_form(text),
    ));
    let mut list = "[".to_owned();
    list.append(text::join(&forms, ", ").as_str());
    list.append("]");
    list
}

/// Read a listing of the card.
///
/// A listing we cannot parse must be an error, never an empty card: the latter
/// would make a sync report success having downloaded nothing.
pub fn photos_from(value: &Json) -> (photos: Result<Vec<PhotoRef>>)
    ensures
        error::seen(photos) == photos_of(value@),
{
    let dirs = match value.get("dirs") {
        Some(dirs) => dirs.as_array(),
        None => None,
    };
    match dirs {
        None => {
            let mut detail = "/v1/photos -> missing 'dirs' list, got keys ".to_owned();
            detail.append(list_text(&value.keys()).as_str());
            Err(Error::Http(detail))
        },
        Some(dirs) => {
            let ghost entries = dirs.deep_view();
            let mut photos: Vec<PhotoRef> = Vec::new();
            let mut i: usize = 0;
            assert(photos.deep_view() == files_in(entries.take(0)));
            while i < dirs.len()
                invariant
                    i <= dirs@.len(),
                    entries == dirs.deep_view(),
                    photos.deep_view() == files_in(entries.take(i as int)),
                decreases dirs@.len() - i,
            {
                let ghost before = photos.deep_view();
                add_files(&dirs[i], &mut photos);
                i += 1;
                proof {
                    assert(entries.take(i as int).drop_last() == entries.take(i - 1));
                    assert(entries.take(i as int).last() == dirs@[i - 1]@);
                }
            }
            assert(entries.take(dirs@.len() as int) == entries);
            Ok(photos)
        },
    }
}

/// Add the files of one directory of the listing.
fn add_files(entry: &Json, photos: &mut Vec<PhotoRef>)
    ensures
        final(photos).deep_view() == old(photos).deep_view() + files_of(entry@),
{
    let files = match entry.get("files") {
        Some(files) => files.as_array(),
        None => None,
    };
    match (member_text(entry, "name"), files) {
        (Some(directory), Some(files)) => {
            let ghost items = files.deep_view();
            let ghost before = photos.deep_view();
            let mut i: usize = 0;
            assert(before + files_named(directory@, items.take(0)) == before);
            while i < files.len()
                invariant
                    i <= files@.len(),
                    items == files.deep_view(),
                    photos.deep_view() == before + files_named(directory@, items.take(i as int)),
                decreases files@.len() - i,
            {
                proof {
                    assert(items.take(i + 1).drop_last() == items.take(i as int));
                    assert(items.take(i + 1).last() == files@[i as int]@);
                }
                let ghost so_far = photos.deep_view();
                match files[i].as_str() {
                    Some(filename) => if filename.unicode_len() > 0 {
                        photos.push(PhotoRef::new(directory.as_str(), filename));
                        assert(photos.deep_view() == so_far.push(
                            PhotoView { directory: directory@, filename: filename@ },
                        ));
                        assert(photos.deep_view() == before + files_named(
                            directory@,
                            items.take(i + 1),
                        ));
                    },
                    None => {},
                }
                i += 1;
            }
            assert(items.take(files@.len() as int) == items);
        },
        _ => {
            assert(photos.deep_view() == old(photos).deep_view() + files_of(entry@));
        },
    }
}

impl Camera {
    /// Make sense of the reply to a request for `/v1/props`.
    pub fn props(&self, reply: HttpReply) -> (props: Result<CameraProps>)
        ensures
            error::seen(props) == match json_reply("/v1/props"@, reply@) {
                Ok(value) => Ok(props_of(value)),
                Err(error) => Err(error),
            },
    {
        match self.get_json("/v1/props", reply) {
            Ok(value) => Ok(props_from(&value)),
            Err(error) => Err(error),
        }
    }

    /// Make sense of the reply to a request for `/v1/photos`: every file on the
    /// card, in the order the camera reports it.
    ///
    /// That order is shooting order, and it is what makes `--last N`
    /// meaningful, so it is preserved rather than re-sorted.
    pub fn photos(&self, reply: HttpReply) -> (photos: Result<Vec<PhotoRef>>)
        ensures
            error::seen(photos) == match json_reply("/v1/photos"@, reply@) {
                Ok(value) => photos_of(value),
                Err(error) => Err(error),
            },
    {
        match self.get_json("/v1/photos", reply) {
            Ok(value) => photos_from(&value),
            Err(error) => Err(error),
        }
    }
}

/// What a body's length says of it: an empty one is refused, and so is one that
/// is not as long as was announced.
pub open spec fn length_verdict(key: Seq<char>, written: u64, announced: Option<u64>) -> ResultView<
    (),
> {
    if written == 0 {
        Err(ErrorView::Http(key + " -> downloaded 0 bytes"@))
    } else {
        match announced {
            Some(expected) => if written != expected {
                Err(
                    ErrorView::Http(
                        key + " -> truncated: got "@ + text::decimal(written as nat) + " of "@
                            + text::decimal(expected as nat) + " bytes"@,
                    ),
                )
            } else {
                Ok(())
            },
            None => Ok(()),
        }
    }
}

/// Defence in depth against a truncated body.
///
/// An HTTP client already errors when a length-delimited response is cut short,
/// so in practice this fires only where the transport cannot tell; and it never
/// fires for a close-delimited response, which carries no length to check
/// against.
pub fn verify_length(key: &str, written: u64, announced: Option<u64>) -> (verdict: Result<()>)
    ensures
        error::seen(verdict) == length_verdict(key@, written, announced),
{
    if written == 0 {
        let mut detail = key.to_owned();
        detail.append(" -> downloaded 0 bytes");
        return Err(Error::Http(detail));
    }
    match announced {
        Some(expected) => if written != expected {
            let mut detail = key.to_owned();
            detail.append(" -> truncated: got ");
            detail.append(text::decimal_text(written).as_str());
            detail.append(" of ");
            detail.append(text::decimal_text(expected).as_str());
            detail.append(" bytes");
            Err(Error::Http(detail))
        } else {
            Ok(())
        },
        None => Ok(()),
    }
}

/// The sibling that a file is downloaded into.
pub fn partial_path(destination: &str) -> (partial: String)
    ensures
        partial@ == paths::suffixed(destination@, ".part"@),
{
    paths::with_suffix(destination, ".part")
}

/// The length that a response announces, where it does so in digits.
pub open spec fn announced_length(header: Option<Seq<char>>) -> Option<u64> {
    match header {
        Some(header) => match text::unsigned_value(header, u64::MAX as nat) {
            Some(length) => Some(length as u64),
            None => None,
        },
        None => None,
    }
}

/// One file to download, and where.
#[derive(Debug)]
pub struct Transfer {
    /// The photo, as it is named in messages.
    pub key: String,
    pub path: String,
    pub url: String,
    /// The directory that the file goes to.
    pub folder: String,
    /// What the body lands in until it is known to be whole.
    pub partial: String,
    pub destination: String,
}

/// A download's names, mathematically.
#[verifier::ext_equal]
pub struct TransferView {
    pub key: Seq<char>,
    pub path: Seq<char>,
    pub url: Seq<char>,
    pub folder: Seq<char>,
    pub partial: Seq<char>,
    pub destination: Seq<char>,
}

impl View for Transfer {
    type V = TransferView;

    open spec fn view(&self) -> TransferView {
        TransferView {
            key: self.key@,
            path: self.path@,
            url: self.url@,
            folder: self.folder@,
            partial: self.partial@,
            destination: self.destination@,
        }
    }
}

/// Downloading a photo from a camera to a destination.
pub open spec fn transfer_of(
    host: Seq<char>,
    photo: PhotoView,
    destination: Seq<char>,
    legacy: bool,
) -> TransferView {
    TransferView {
        key: photo.key(),
        path: body_path(photo, legacy),
        url: url_of(host, body_path(photo, legacy)),
        folder: match paths::parent(destination) {
            Some(folder) => folder,
            None => "."@,
        },
        partial: paths::suffixed(destination, ".part"@),
        destination,
    }
}

/// How far a download is.
#[derive(Debug)]
pub enum Phase {
    Folder,
    Request,
    Create { announced: Option<u64> },
    Copy { announced: Option<u64> },
    Rename { written: u64 },
    Remove { error: Error },
}

#[verifier::ext_equal]
pub enum PhaseView {
    Folder,
    Request,
    Create { announced: Option<u64> },
    Copy { announced: Option<u64> },
    Rename { written: u64 },
    Remove { error: ErrorView },
}

impl View for Phase {
    type V = PhaseView;

    open spec fn view(&self) -> PhaseView {
        match *self {
            Phase::Folder => PhaseView::Folder,
            Phase::Request => PhaseView::Request,
            Phase::Create { announced } => PhaseView::Create { announced },
            Phase::Copy { announced } => PhaseView::Copy { announced },
            Phase::Rename { written } => PhaseView::Rename { written },
            Phase::Remove { error } => PhaseView::Remove { error: error@ },
        }
    }
}

impl DeepView for Phase {
    type V = PhaseView;

    open spec fn deep_view(&self) -> PhaseView {
        self@
    }
}

/// What a download asks to be done.
#[derive(Debug)]
pub enum Work {
    CreateFolder(String),
    /// Request this URL.
    Get(String),
    CreateFile(String),
    /// Copy the response's body into the file.
    Copy,
    Rename { from: String, to: String },
    /// Remove the file, whether or not there is one.
    Remove(String),
}

#[verifier::ext_equal]
pub enum WorkView {
    CreateFolder(Seq<char>),
    Get(Seq<char>),
    CreateFile(Seq<char>),
    Copy,
    Rename { from: Seq<char>, to: Seq<char> },
    Remove(Seq<char>),
}

impl View for Work {
    type V = WorkView;

    open spec fn view(&self) -> WorkView {
        match *self {
            Work::CreateFolder(path) => WorkView::CreateFolder(path@),
            Work::Get(url) => WorkView::Get(url@),
            Work::CreateFile(path) => WorkView::CreateFile(path@),
            Work::Copy => WorkView::Copy,
            Work::Rename { from, to } => WorkView::Rename { from: from@, to: to@ },
            Work::Remove(path) => WorkView::Remove(path@),
        }
    }
}

/// What came of it.
#[derive(Debug)]
pub enum WorkReply {
    Done,
    /// It failed, and why.
    Failed(String),
    /// A response, before its body: its status, and its `Content-Length`.
    Response { status: u16, length: Option<String> },
    /// The body was copied to its end: so many bytes.
    Copied(u64),
}

#[verifier::ext_equal]
pub enum WorkReplyView {
    Done,
    Failed(Seq<char>),
    Response { status: u16, length: Option<Seq<char>> },
    Copied(u64),
}

impl View for WorkReply {
    type V = WorkReplyView;

    open spec fn view(&self) -> WorkReplyView {
        match *self {
            WorkReply::Done => WorkReplyView::Done,
            WorkReply::Failed(reason) => WorkReplyView::Failed(reason@),
            WorkReply::Response { status, length } => {
                WorkReplyView::Response { status, length: length.deep_view() }
            },
            WorkReply::Copied(written) => WorkReplyView::Copied(written),
        }
    }
}

/// What each phase of a download asks for.
pub open spec fn work_of(transfer: TransferView, phase: PhaseView) -> WorkView {
    match phase {
        PhaseView::Folder => WorkView::CreateFolder(transfer.folder),
        PhaseView::Request => WorkView::Get(transfer.url),
        PhaseView::Create { .. } => WorkView::CreateFile(transfer.partial),
        PhaseView::Copy { .. } => WorkView::Copy,
        PhaseView::Rename { .. } => WorkView::Rename {
            from: transfer.partial,
            to: transfer.destination,
        },
        PhaseView::Remove { .. } => WorkView::Remove(transfer.partial),
    }
}

/// Whether a reply is one that the work can have.
pub open spec fn work_answered(work: WorkView, reply: WorkReplyView) -> bool {
    reply is Failed || match work {
        WorkView::Get(_) => reply is Response,
        WorkView::Copy => reply is Copied,
        _ => reply is Done,
    }
}

/// How a download goes on. Once the request is made, every failure but that of
/// the rename itself removes the partial file before it is reported.
pub open spec fn download_next(
    transfer: TransferView,
    phase: PhaseView,
    reply: WorkReplyView,
) -> StepView<PhaseView, u64> {
    match (phase, reply) {
        (PhaseView::Folder, WorkReplyView::Failed(reason)) => StepView::Done(
            Err(ErrorView::Io { context: "creating "@ + transfer.folder, source: reason }),
        ),
        (PhaseView::Folder, _) => StepView::More(PhaseView::Request),
        (PhaseView::Request, WorkReplyView::Failed(reason)) => StepView::More(
            PhaseView::Remove {
                error: ErrorView::Http("GET "@ + transfer.path + " -> "@ + reason),
            },
        ),
        (PhaseView::Request, WorkReplyView::Response { status, length }) => if status != 200 {
            StepView::More(
                PhaseView::Remove {
                    error: ErrorView::Http(
                        transfer.key + " -> HTTP "@ + text::decimal(status as nat),
                    ),
                },
            )
        } else {
            StepView::More(PhaseView::Create { announced: announced_length(length) })
        },
        (PhaseView::Create { .. }, WorkReplyView::Failed(reason)) => StepView::More(
            PhaseView::Remove {
                error: ErrorView::Io { context: "creating "@ + transfer.partial, source: reason },
            },
        ),
        (PhaseView::Create { announced }, _) => StepView::More(PhaseView::Copy { announced }),
        (PhaseView::Copy { .. }, WorkReplyView::Failed(reason)) => StepView::More(
            PhaseView::Remove {
                error: ErrorView::Io { context: "writing "@ + transfer.partial, source: reason },
            },
        ),
        (PhaseView::Copy { announced }, WorkReplyView::Copied(written)) => match length_verdict(
            transfer.key,
            written,
            announced,
        ) {
            Ok(_) => StepView::More(PhaseView::Rename { written }),
            Err(error) => StepView::More(PhaseView::Remove { error }),
        },
        (PhaseView::Rename { .. }, WorkReplyView::Failed(reason)) => StepView::Done(
            Err(ErrorView::Io { context: "renaming "@ + transfer.partial, source: reason }),
        ),
        (PhaseView::Rename { written }, _) => StepView::Done(Ok(written)),
        (PhaseView::Remove { error }, _) => StepView::Done(Err(error)),
        _ => StepView::More(phase),
    }
}

/// How far a download is from its end.
pub open spec fn phase_rank(phase: PhaseView) -> nat {
    match phase {
        PhaseView::Folder => 5,
        PhaseView::Request => 4,
        PhaseView::Create { .. } => 3,
        PhaseView::Copy { .. } => 2,
        PhaseView::Rename { .. } => 1,
        PhaseView::Remove { .. } => 1,
    }
}

fn io_error(verb: &str, path: &str, reason: &str) -> (error: Error)
    ensures
        error@ == (ErrorView::Io { context: verb@ + path@, source: reason@ }),
{
    let mut context = verb.to_owned();
    context.append(path);
    Error::io(context.as_str(), reason)
}

impl Camera {
    /// Set out to stream one file to `destination`.
    ///
    /// The body lands in a `.part` sibling and is renamed only after the stream
    /// completes *and* its length has been checked against the advertised
    /// `Content-Length`. A transfer cut short by the access point dropping is
    /// exactly what this guards; without the length check it is silent, and the
    /// truncated file would be skipped as "already downloaded" next run.
    pub fn download(&self, photo: &PhotoRef, destination: &str, legacy: bool) -> (transfer: Transfer)
        ensures
            transfer@ == transfer_of(self@, photo@, destination@, legacy),
    {
        let path = self.photo_path(photo, legacy);
        let url = self.url(path.as_str());
        let folder = match paths::parent_of(destination) {
            Some(folder) => folder,
            None => ".".to_owned(),
        };
        Transfer {
            key: photo.key(),
            path,
            url,
            folder,
            partial: partial_path(destination),
            destination: destination.to_owned(),
        }
    }
}

impl Transfer {
    /// What to do in a phase.
    pub fn work(&self, phase: &Phase) -> (work: Work)
        ensures
            work@ == work_of(self@, phase@),
    {
        match phase {
            Phase::Folder => Work::CreateFolder(self.folder.clone()),
            Phase::Request => Work::Get(self.url.clone()),
            Phase::Create { .. } => Work::CreateFile(self.partial.clone()),
            Phase::Copy { .. } => Work::Copy,
            Phase::Rename { .. } => Work::Rename {
                from: self.partial.clone(),
                to: self.destination.clone(),
            },
            Phase::Remove { .. } => Work::Remove(self.partial.clone()),
        }
    }

    /// Whether a reply is one that a phase can have.
    pub fn accepts(&self, phase: &Phase, reply: &WorkReply) -> (yes: bool)
        ensures
            yes == work_answered(work_of(self@, phase@), reply@),
    {
        match (phase, reply) {
            (_, WorkReply::Failed(_)) => true,
            (Phase::Request, WorkReply::Response { .. }) => true,
            (Phase::Request, _) => false,
            (Phase::Copy { .. }, WorkReply::Copied(_)) => true,
            (Phase::Copy { .. }, _) => false,
            (_, WorkReply::Done) => true,
            _ => false,
        }
    }

    /// Go on from what came of it.
    pub fn next(&self, phase: Phase, reply: WorkReply) -> (step: Step<Phase, u64>)
        requires
            work_answered(work_of(self@, phase@), reply@),
        ensures
            step@ == download_next(self@, phase@, reply@),
            step@ matches StepView::More(next) ==> phase_rank(next) < phase_rank(phase@),
    {
        match (phase, reply) {
            (Phase::Folder, WorkReply::Failed(reason)) => Step::Done(
                Err(io_error("creating ", self.folder.as_str(), reason.as_str())),
            ),
            (Phase::Folder, _) => Step::More(Phase::Request),
            (Phase::Request, WorkReply::Failed(reason)) => {
                let mut detail = "GET ".to_owned();
                detail.append(self.path.as_str());
                detail.append(" -> ");
                detail.append(reason.as_str());
                Step::More(Phase::Remove { error: Error::Http(detail) })
            },
            (Phase::Request, WorkReply::Response { status, length }) => {
                if status != 200 {
                    let mut detail = self.key.clone();
                    detail.append(" -> HTTP ");
                    detail.append(text::decimal_text(status as u64).as_str());
                    Step::More(Phase::Remove { error: Error::Http(detail) })
                } else {
                    let announced: Option<u64> = match &length {
                        Some(header) => text::parse_unsigned(header.as_str(), u64::MAX),
                        None => None,
                    };
                    Step::More(Phase::Create { announced })
                }
            },
            (Phase::Create { .. }, WorkReply::Failed(reason)) => Step::More(
                Phase::Remove {
                    error: io_error("creating ", self.partial.as_str(), reason.as_str()),
                },
            ),
            (Phase::Create { announced }, _) => Step::More(Phase::Copy { announced }),
            (Phase::Copy { .. }, WorkReply::Failed(reason)) => Step::More(
                Phase::Remove {
                    error: io_error("writing ", self.partial.as_str(), reason.as_str()),
                },
            ),
            (Phase::Copy { announced }, WorkReply::Copied(written)) => match verify_length(
                self.key.as_str(),
                written,
                announced,
            ) {
                Ok(_) => Step::More(Phase::Rename { written }),
                Err(error) => Step::More(Phase::Remove { error }),
            },
            (Phase::Rename { .. }, WorkReply::Failed(reason)) => Step::Done(
                Err(io_error("renaming ", self.partial.as_str(), reason.as_str())),
            ),
            (Phase::Rename { written }, _) => Step::Done(Ok(written)),
            (Phase::Remove { error }, _) => Step::Done(Err(error)),
            (phase, _) => Step::More(phase),
        }
    }
}

#[derive(Debug, Clone, Copy)]
pub struct Filter<'a> {
    pub jpeg: bool,
    pub raw: bool,
    pub last: Option<usize>,
    pub directory: Option<&'a str>,
}

/// What is wanted of a listing, mathematically.
#[verifier::ext_equal]
pub struct FilterView {
    pub jpeg: bool,
    pub raw: bool,
    pub last: Option<usize>,
    pub directory: Option<Seq<char>>,
}

impl<'a> View for Filter<'a> {
    type V = FilterView;

    open spec fn view(&self) -> FilterView {
        FilterView {
            jpeg: self.jpeg,
            raw: self.raw,
            last: self.last,
            directory: self.directory.deep_view(),
        }
    }
}

impl<'a> Default for Filter<'a> {
    fn default() -> (filter: Self)
        ensures
            filter@ == (FilterView { jpeg: true, raw: true, last: None, directory: None }),
    {
        Filter { jpeg: true, raw: true, last: None, directory: None }
    }
}

impl FilterView {
    /// Whether a file is wanted, leaving aside how many are.
    pub open spec fn wants(self, photo: PhotoView) -> bool {
        &&& self.directory matches Some(directory) ==> photo.directory == directory
        &&& {
            ||| self.jpeg && photo.is_jpeg()
            ||| self.raw && photo.is_raw()
            ||| self.jpeg && self.raw && !photo.is_jpeg() && !photo.is_raw()
        }
    }
}

/// The files of a listing that are wanted, in its order.
pub open spec fn wanted(photos: Seq<PhotoView>, filter: FilterView) -> Seq<PhotoView>
    decreases photos.len(),
{
    if photos.len() == 0 {
        seq![]
    } else {
        let before = wanted(photos.drop_last(), filter);
        if filter.wants(photos.last()) {
            before.push(photos.last())
        } else {
            before
        }
    }
}

/// The last so many of a sequence; all of it where it has no more.
pub open spec fn last_of<T>(all: Seq<T>, last: Option<usize>) -> Seq<T> {
    match last {
        Some(last) => if last < all.len() {
            all.skip(all.len() - last)
        } else {
            all
        },
        None => all,
    }
}

/// What a filter selects from a listing.
pub open spec fn selection(photos: Seq<PhotoView>, filter: FilterView) -> Seq<PhotoView> {
    last_of(wanted(photos, filter), filter.last)
}

/// Apply the user-facing filters to a photo listing.
///
/// `last` counts *selected* files from the end, so `--last 5 --jpg` yields five
/// JPEGs rather than five files of which some happen to be DNGs. Anything that
/// is neither format (a movie, say) only comes along when no format filter was
/// asked for at all.
pub fn select(refs: &[PhotoRef], filter: Filter<'_>) -> (chosen: Vec<PhotoRef>)
    ensures
        chosen.deep_view() == selection(refs.deep_view(), filter@),
{
    let ghost photos = refs.deep_view();
    let mut chosen: Vec<PhotoRef> = Vec::new();
    let mut i: usize = 0;
    assert(chosen.deep_view() == wanted(photos.take(0), filter@));
    while i < refs.len()
        invariant
            i <= refs@.len(),
            photos == refs.deep_view(),
            chosen.deep_view() == wanted(photos.take(i as int), filter@),
        decreases refs@.len() - i,
    {
        let photo = &refs[i];
        let here = match filter.directory {
            Some(directory) => text::same(photo.directory.as_str(), directory),
            None => true,
        };
        let jpeg = photo.is_jpeg();
        let raw = photo.is_raw();
        let ghost before = chosen.deep_view();
        proof {
            assert(photos.take(i + 1).drop_last() == photos.take(i as int));
            assert(photos.take(i + 1).last() == photo@);
        }
        if here && ((filter.jpeg && jpeg) || (filter.raw && raw) || (filter.jpeg && filter.raw
            && !jpeg && !raw)) {
            chosen.push(photo.clone());
            assert(chosen.deep_view() == before.push(photo@));
        }
        i += 1;
    }
    assert(photos.take(refs@.len() as int) == photos);
    match filter.last {
        Some(last) => {
            if last < chosen.len() {
                let skip: usize = chosen.len() - last;
                let kept = chosen.split_off(skip);
                assert(kept.deep_view() == wanted(photos, filter@).skip(skip as int));
                kept
            } else {
                chosen
            }
        },
        None => chosen,
    }
}

/// An error code in the envelope is what is reported, whatever the HTTP status;
/// and a body that is not JSON never passes.
pub proof fn lemma_the_envelope_counts_first(
    path: Seq<char>,
    status: u16,
    body: Seq<u8>,
    document: Option<JsonView>,
)
    ensures
        document is None ==> enveloped(path, status, body, document) is Err,
        document matches Some(value) ==> (json::integer_in(json::member(value, "errCode"@)) matches Some(
            code,
        ) ==> (code != 200 ==> (enveloped(path, status, body, document) matches Err(
            ErrorView::CameraApi { code: reported, endpoint, .. },
        ) && reported == code && endpoint == path))),
        enveloped(path, status, body, document) matches Ok(value) ==> document == Some(value)
            && status == 200,
{
}

/// Waiting for the camera probes before it gives up, and does not give up before
/// the time is over.
pub proof fn lemma_waiting(host: Seq<char>, up: bool, elapsed: u64, timeout: u64)
    ensures
        up ==> waited(host, up, elapsed, timeout) == WaitView::Up,
        waited(host, up, elapsed, timeout) is GiveUp ==> !up && elapsed >= timeout,
        waited(host, up, elapsed, timeout) is Again ==> !up && elapsed < timeout,
{
}

/// A download is reported only after the partial file, found whole, was
/// renamed; and it is renamed only when its length was checked.
pub proof fn lemma_only_whole_files_arrive(
    transfer: TransferView,
    phase: PhaseView,
    reply: WorkReplyView,
)
    requires
        work_answered(work_of(transfer, phase), reply),
    ensures
        download_next(transfer, phase, reply) matches StepView::Done(Ok(written)) ==> {
            &&& phase == (PhaseView::Rename { written })
            &&& reply is Done
            &&& work_of(transfer, phase) == (WorkView::Rename {
                from: transfer.partial,
                to: transfer.destination,
            })
        },
        download_next(transfer, phase, reply) matches StepView::More(
            PhaseView::Rename { written },
        ) ==> {
            &&& phase matches PhaseView::Copy { announced }
            &&& reply == WorkReplyView::Copied(written)
            &&& written > 0
            &&& phase->Copy_announced matches Some(expected) ==> written == expected
        },
{
}

/// A download that fails after its request was made removes the partial file
/// before it reports the failure, unless what failed was the rename.
pub proof fn lemma_failed_downloads_leave_nothing(
    transfer: TransferView,
    phase: PhaseView,
    reply: WorkReplyView,
)
    requires
        work_answered(work_of(transfer, phase), reply),
    ensures
        download_next(transfer, phase, reply) matches StepView::Done(Err(_)) ==> {
            ||| phase is Folder
            ||| phase is Rename
            ||| work_of(transfer, phase) == WorkView::Remove(transfer.partial)
        },
        (reply is Failed && (phase is Request || phase is Create || phase is Copy)) ==> (
        download_next(transfer, phase, reply) matches StepView::More(PhaseView::Remove { .. })),
        phase matches PhaseView::Remove { error } ==> download_next(transfer, phase, reply)
            == StepView::<PhaseView, u64>::Done(Err(error)),
{
}

/// What a download that gets these replies comes to; nothing where they are not
/// the replies of a whole download.
pub open spec fn downloaded(
    transfer: TransferView,
    phase: PhaseView,
    replies: Seq<WorkReplyView>,
) -> Option<ResultView<u64>>
    decreases replies.len(),
{
    if replies.len() == 0 || !work_answered(work_of(transfer, phase), replies[0]) {
        None
    } else {
        match download_next(transfer, phase, replies[0]) {
            StepView::More(next) => downloaded(transfer, next, replies.skip(1)),
            StepView::Done(result) => if replies.len() == 1 {
                Some(result)
            } else {
                None
            },
        }
    }
}

/// Which files there are once a piece of work was done, where there were `files`
/// before. A file that could not be removed is still there, and one that could
/// not be created or renamed is not.
pub open spec fn done_to(files: Set<Seq<char>>, work: WorkView, reply: WorkReplyView) -> Set<
    Seq<char>,
> {
    if reply is Failed {
        files
    } else {
        match work {
            WorkView::CreateFile(path) => files.insert(path),
            WorkView::Rename { from, to } => files.remove(from).insert(to),
            WorkView::Remove(path) => files.remove(path),
            _ => files,
        }
    }
}

/// Which files there are after a download, where there were `files` before.
pub open spec fn files_after(
    transfer: TransferView,
    phase: PhaseView,
    replies: Seq<WorkReplyView>,
    files: Set<Seq<char>>,
) -> Set<Seq<char>>
    decreases replies.len(),
{
    if replies.len() == 0 {
        files
    } else {
        let after = done_to(files, work_of(transfer, phase), replies[0]);
        match download_next(transfer, phase, replies[0]) {
            StepView::More(next) => files_after(transfer, next, replies.skip(1), after),
            StepView::Done(_) => after,
        }
    }
}

/// Of a whole download: one that succeeds leaves its file in the place of the
/// partial one; it was not empty, and as long as announced. One that fails leaves
/// the other files as they were, and no partial one, unless what failed at last was
/// to make the folder, or to rename or remove the partial file.
pub proof fn lemma_a_whole_download(
    transfer: TransferView,
    replies: Seq<WorkReplyView>,
    files: Set<Seq<char>>,
)
    requires
        downloaded(transfer, PhaseView::Folder, replies) is Some,
    ensures
        ({
            let after = files_after(transfer, PhaseView::Folder, replies, files);
            match downloaded(transfer, PhaseView::Folder, replies).unwrap() {
                Ok(written) => {
                    &&& after == files.remove(transfer.partial).insert(transfer.destination)
                    &&& written > 0
                    &&& replies.contains(WorkReplyView::Copied(written))
                    &&& replies[1] matches WorkReplyView::Response { status, length } && status
                        == 200 && (announced_length(length) matches Some(announced) ==> written
                        == announced)
                },
                Err(_) => {
                    &&& after.remove(transfer.partial) == files.remove(transfer.partial)
                    &&& !(replies.last() is Failed) ==> !after.contains(transfer.partial)
                },
            }
        }),
{
    let one = replies.skip(1);
    let two = one.skip(1);
    let three = two.skip(1);
    let four = three.skip(1);
    reveal_with_fuel(downloaded, 6);
    reveal_with_fuel(files_after, 6);
    assert(files.insert(transfer.partial).remove(transfer.partial) =~= files.remove(
        transfer.partial,
    ));
    if one.len() > 0 {
        assert(one[0] == replies[1]);
        if two.len() > 0 {
            assert(two[0] == replies[2]);
            if three.len() > 0 {
                assert(three[0] == replies[3]);
                if four.len() > 0 {
                    assert(four[0] == replies[4]);
                }
            }
        }
    }
}

/// What is wanted keeps the listing's order: it is the listing with the other
/// files left out.
pub proof fn lemma_wanted_is_a_subsequence(photos: Seq<PhotoView>, filter: FilterView)
    ensures
        wanted(photos, filter) == photos.filter(|photo: PhotoView| filter.wants(photo)),
    decreases photos.len(),
{
    reveal(Seq::filter);
    if photos.len() > 0 {
        lemma_wanted_is_a_subsequence(photos.drop_last(), filter);
    }
}

/// Every file selected is one of the listing and is wanted; at most `last` are;
/// and without `last` every file wanted is selected.
pub proof fn lemma_selection(photos: Seq<PhotoView>, filter: FilterView)
    ensures
        forall|i: int|
            0 <= i < selection(photos, filter).len() ==> filter.wants(
                #[trigger] selection(photos, filter)[i],
            ) && photos.contains(selection(photos, filter)[i]),
        filter.last matches Some(last) ==> selection(photos, filter).len() <= last,
        filter.last is None ==> forall|i: int|
            0 <= i < photos.len() && filter.wants(#[trigger] photos[i]) ==> selection(
                photos,
                filter,
            ).contains(photos[i]),
{
    lemma_wanted(photos, filter);
    assert forall|i: int| 0 <= i < selection(photos, filter).len() implies filter.wants(
        #[trigger] selection(photos, filter)[i],
    ) && photos.contains(selection(photos, filter)[i]) by {
        let all = wanted(photos, filter);
        let j = i + (all.len() - selection(photos, filter).len());
        assert(selection(photos, filter)[i] == all[j]);
    }
}

proof fn lemma_wanted(photos: Seq<PhotoView>, filter: FilterView)
    ensures
        forall|i: int|
            0 <= i < wanted(photos, filter).len() ==> filter.wants(
                #[trigger] wanted(photos, filter)[i],
            ) && photos.contains(wanted(photos, filter)[i]),
        forall|i: int|
            0 <= i < photos.len() && filter.wants(#[trigger] photos[i]) ==> wanted(
                photos,
                filter,
            ).contains(photos[i]),
    decreases photos.len(),
{
    if photos.len() > 0 {
        let before = photos.drop_last();
        lemma_wanted(before, filter);
        let all = wanted(photos, filter);
        assert forall|i: int| 0 <= i < all.len() implies filter.wants(#[trigger] all[i])
            && photos.contains(all[i]) by {
            if i < wanted(before, filter).len() {
                assert(all[i] == wanted(before, filter)[i]);
                let k = choose|k: int| 0 <= k < before.len() && before[k] == all[i];
                assert(photos[k] == all[i]);
            } else {
                assert(photos[photos.len() - 1] == all[i]);
            }
        }
        assert forall|i: int| 0 <= i < photos.len() && filter.wants(#[trigger] photos[i]) implies all.contains(
            photos[i],
        ) by {
            if i < before.len() {
                assert(before[i] == photos[i]);
                let w = wanted(before, filter);
                let k = choose|k: int| 0 <= k < w.len() && w[k] == before[i];
                assert(all[k] == photos[i]);
            } else {
                assert(all[all.len() - 1] == photos[i]);
            }
        }
    }
}

/// The listing of some directories followed by others is the listing of the ones
/// followed by that of the others: no directory drops out, and none moves.
pub proof fn lemma_listings_add_up(first: Seq<JsonView>, second: Seq<JsonView>)
    ensures
        files_in(first + second) == files_in(first) + files_in(second),
        files_in(first + second).len() == files_in(first).len() + files_in(second).len(),
    decreases second.len(),
{
    if second.len() == 0 {
        assert(first + second =~= first);
    } else {
        assert((first + second).drop_last() =~= first + second.drop_last());
        lemma_listings_add_up(first, second.drop_last());
        assert(files_in(first + second) =~= files_in(first) + files_in(second));
    }
}

/// Every non-empty text in the list of files of a directory that has a name is in
/// the listing, under that name.
pub proof fn lemma_every_file_is_listed(
    dirs: Seq<JsonView>,
    d: int,
    directory: Seq<char>,
    files: Seq<JsonView>,
    f: int,
    filename: Seq<char>,
)
    requires
        0 <= d < dirs.len(),
        json::member(dirs[d], "name"@) == Some(JsonView::Text(directory)),
        json::member(dirs[d], "files"@) == Some(JsonView::Array(files)),
        0 <= f < files.len(),
        files[f] == JsonView::Text(filename),
        filename.len() > 0,
    ensures
        files_in(dirs).contains(PhotoView { directory, filename }),
{
    let before = dirs.take(d);
    let after = dirs.skip(d + 1);
    assert(dirs =~= before + (seq![dirs[d]] + after));
    lemma_listings_add_up(before, seq![dirs[d]] + after);
    lemma_listings_add_up(seq![dirs[d]], after);
    lemma_one_directory(dirs[d]);
    lemma_file_is_named(directory, files, f, filename);
    let photo = PhotoView { directory, filename };
    let named = files_named(directory, files);
    let k = choose|k: int| 0 <= k < named.len() && named[k] == photo;
    assert(files_in(dirs)[files_in(before).len() + k] == photo);
}

proof fn lemma_one_directory(entry: JsonView)
    ensures
        files_in(seq![entry]) == files_of(entry),
{
    assert(seq![entry].drop_last() =~= Seq::empty());
    assert(files_in(Seq::empty()) =~= Seq::empty());
    assert(files_in(seq![entry]) =~= files_of(entry));
}

proof fn lemma_file_is_named(
    directory: Seq<char>,
    files: Seq<JsonView>,
    f: int,
    filename: Seq<char>,
)
    requires
        0 <= f < files.len(),
        files[f] == JsonView::Text(filename),
        filename.len() > 0,
    ensures
        files_named(directory, files).contains(PhotoView { directory, filename }),
    decreases files.len(),
{
    let photo = PhotoView { directory, filename };
    let named = files_named(directory, files);
    if f == files.len() - 1 {
        assert(named[named.len() - 1] == photo);
    } else {
        lemma_file_is_named(directory, files.drop_last(), f, filename);
        let before = files_named(directory, files.drop_last());
        let k = choose|k: int| 0 <= k < before.len() && before[k] == photo;
        assert(named[k] == photo);
    }
}

/// Whether a file is named in a listing: directory `d` has this name, and entry `f` of
/// its list of files is this text.
pub open spec fn is_named_at(dirs: Seq<JsonView>, d: int, f: int, photo: PhotoView) -> bool {
    &&& 0 <= d < dirs.len()
    &&& json::member(dirs[d], "name"@) == Some(JsonView::Text(photo.directory))
    &&& json::member(dirs[d], "files"@) matches Some(JsonView::Array(files)) && 0 <= f
        < files.len() && files[f] == JsonView::Text(photo.filename)
}

/// Nothing is listed that the camera did not name, and nothing without a name.
pub proof fn lemma_only_named_files_are_listed(dirs: Seq<JsonView>, i: int)
    requires
        0 <= i < files_in(dirs).len(),
    ensures
        files_in(dirs)[i].filename.len() > 0,
        exists|d: int, f: int| #[trigger] is_named_at(dirs, d, f, files_in(dirs)[i]),
    decreases dirs.len(),
{
    let front = dirs.drop_last();
    let photo = files_in(dirs)[i];
    if i < files_in(front).len() {
        lemma_only_named_files_are_listed(front, i);
        let (d, f) = choose|d: int, f: int| #[trigger] is_named_at(front, d, f, photo);
        assert(front[d] == dirs[d]);
        assert(is_named_at(dirs, d, f, photo));
    } else {
        let entry = dirs.last();
        let directory = json::text_in(json::member(entry, "name"@)).unwrap();
        let files = json::items_in(json::member(entry, "files"@)).unwrap();
        let f = lemma_named_from(directory, files, i - files_in(front).len());
        assert(is_named_at(dirs, dirs.len() - 1, f, photo));
    }
}

proof fn lemma_named_from(directory: Seq<char>, files: Seq<JsonView>, i: int) -> (f: int)
    requires
        0 <= i < files_named(directory, files).len(),
    ensures
        0 <= f < files.len(),
        files_named(directory, files)[i].directory == directory,
        files_named(directory, files)[i].filename.len() > 0,
        files[f] == JsonView::Text(files_named(directory, files)[i].filename),
    decreases files.len(),
{
    let before = files_named(directory, files.drop_last());
    if i < before.len() {
        lemma_named_from(directory, files.drop_last(), i)
    } else {
        files.len() - 1
    }
}

/// A directory is listed file by file in the camera's order: where every entry of its
/// list is a name, the listing has each at the place it has there; and the lists of
/// two halves follow one another.
pub proof fn lemma_directories_keep_their_order(
    directory: Seq<char>,
    first: Seq<JsonView>,
    second: Seq<JsonView>,
)
    ensures
        files_named(directory, first + second) == files_named(directory, first) + files_named(
            directory,
            second,
        ),
        (forall|i: int|
            0 <= i < first.len() ==> ((#[trigger] first[i]) matches JsonView::Text(name)
                && name.len() > 0)) ==> {
            &&& files_named(directory, first).len() == first.len()
            &&& forall|i: int|
                0 <= i < first.len() ==> (#[trigger] files_named(directory, first)[i]) == (PhotoView {
                    directory,
                    filename: first[i]->Text_0,
                })
        },
    decreases first.len() + second.len(),
{
    if second.len() > 0 {
        assert((first + second).drop_last() =~= first + second.drop_last());
        lemma_directories_keep_their_order(directory, first, second.drop_last());
        assert(files_named(directory, first + second) =~= files_named(directory, first)
            + files_named(directory, second));
    } else {
        assert(first + second =~= first);
        if first.len() > 0 {
            let front = first.drop_last();
            lemma_directories_keep_their_order(directory, front, second);
            if forall|i: int|
                0 <= i < first.len() ==> ((#[trigger] first[i]) matches JsonView::Text(name)
                    && name.len() > 0) {
                assert forall|i: int| 0 <= i < front.len() implies ((
                #[trigger] front[i]) matches JsonView::Text(name) && name.len() > 0) by {
                    assert(first[i] == front[i]);
                }
                assert(first[first.len() - 1] == first.last());
                assert forall|i: int| 0 <= i < first.len() implies (#[trigger] files_named(
                    directory,
                    first,
                )[i]) == (PhotoView { directory, filename: first[i]->Text_0 }) by {
                    if i < front.len() {
                        assert(files_named(directory, front)[i] == files_named(
                            directory,
                            first,
                        )[i]);
                        assert(front[i] == first[i]);
                    }
                }
            }
        }
    }
}

/// A listing is read exactly where it has a list of directories; any other is an
/// error, never an empty card.
pub proof fn lemma_an_unreadable_listing_is_no_empty_card(value: JsonView)
    ensures
        photos_of(value) is Ok <==> (json::member(value, "dirs"@) matches Some(JsonView::Array(_))),
        json::member(value, "dirs"@) matches Some(JsonView::Array(dirs)) ==> photos_of(value)
            == Ok::<Seq<PhotoView>, ErrorView>(files_in(dirs)),
{
}

/// The extension is what follows the last dot, whatever its case; a name without a
/// dot has none.
pub proof fn lemma_the_extension_follows_the_last_dot(
    directory: Seq<char>,
    stem: Seq<char>,
    tail: Seq<char>,
)
    requires
        forall|i: int| 0 <= i < tail.len() ==> tail[i] != '.',
    ensures
        (PhotoView { directory, filename: stem.push('.') + tail }).extension()
            == text::ascii_upper(tail),
        (PhotoView { directory, filename: tail }).extension() == Seq::<char>::empty(),
{
    let name = stem.push('.') + tail;
    text::lemma_rfind(name, '.');
    text::lemma_rfind(tail, '.');
    assert(name[stem.len() as int] == '.');
    let dot = text::rfind(name, '.');
    if dot > stem.len() {
        assert(name[dot] == tail[dot - stem.len() - 1]);
    }
    assert(name.skip(stem.len() as int + 1) =~= tail);
}

/// Of what is selected: every file is in the directory asked for; where only JPEG is
/// asked for each has the extension `JPG` or `JPEG`, where only raw is, `DNG` or
/// `RAW`; where neither is, nothing is selected; and a file of neither format comes
/// along only where both are asked for.
pub proof fn lemma_only_the_formats_asked_for_are_selected(
    photos: Seq<PhotoView>,
    filter: FilterView,
    i: int,
)
    requires
        0 <= i < selection(photos, filter).len(),
    ensures
        ({
            let photo = selection(photos, filter)[i];
            let jpeg = photo.extension() == "JPG"@ || photo.extension() == "JPEG"@;
            let raw = photo.extension() == "DNG"@ || photo.extension() == "RAW"@;
            &&& photos.contains(photo)
            &&& filter.directory matches Some(directory) ==> photo.directory == directory
            &&& filter.jpeg && !filter.raw ==> jpeg
            &&& filter.raw && !filter.jpeg ==> raw
            &&& !jpeg && !raw ==> filter.jpeg && filter.raw
            &&& filter.jpeg || filter.raw
        }),
{
    lemma_selection(photos, filter);
}

/// Without a limit every file of a format asked for, in the directory asked for, is
/// selected; and where both formats are, every file of that directory.
pub proof fn lemma_every_file_asked_for_is_selected(
    photos: Seq<PhotoView>,
    filter: FilterView,
    i: int,
)
    requires
        0 <= i < photos.len(),
        filter.last is None,
        filter.directory matches Some(directory) ==> photos[i].directory == directory,
        ({
            ||| filter.jpeg && (photos[i].extension() == "JPG"@ || photos[i].extension()
                == "JPEG"@)
            ||| filter.raw && (photos[i].extension() == "DNG"@ || photos[i].extension() == "RAW"@)
            ||| filter.jpeg && filter.raw
        }),
    ensures
        selection(photos, filter).contains(photos[i]),
{
    lemma_selection(photos, filter);
}

/// A limit counts the files selected, from the end: it selects the last so many of
/// what is selected without it, and all of it where that is no more.
pub proof fn lemma_the_last_so_many(photos: Seq<PhotoView>, filter: FilterView, last: usize)
    ensures
        ({
            let all = selection(photos, FilterView { last: None, ..filter });
            let some = selection(photos, FilterView { last: Some(last), ..filter });
            &&& some.len() == if all.len() < last {
                all.len()
            } else {
                last as nat
            }
            &&& all.skip(all.len() - some.len()) == some
        }),
{
    lemma_wanted_ignores_the_limit(photos, filter, None);
    lemma_wanted_ignores_the_limit(photos, filter, Some(last));
    let all = wanted(photos, filter);
    assert(all.skip(0) =~= all);
}

proof fn lemma_wanted_ignores_the_limit(
    photos: Seq<PhotoView>,
    filter: FilterView,
    last: Option<usize>,
)
    ensures
        wanted(photos, FilterView { last, ..filter }) == wanted(photos, filter),
    decreases photos.len(),
{
    if photos.len() > 0 {
        lemma_wanted_ignores_the_limit(photos.drop_last(), filter, last);
    }
}

/// What is selected of a listing, without a limit, is what is selected of its
/// beginning followed by what is selected of the rest: the order is kept, and
/// nothing comes twice that was there once.
pub proof fn lemma_selections_add_up(
    first: Seq<PhotoView>,
    second: Seq<PhotoView>,
    filter: FilterView,
)
    requires
        filter.last is None,
    ensures
        selection(first + second, filter) == selection(first, filter) + selection(second, filter),
        selection(first, filter).len() <= first.len(),
    decreases first.len() + second.len(),
{
    if second.len() > 0 {
        assert((first + second).drop_last() =~= first + second.drop_last());
        lemma_selections_add_up(first, second.drop_last(), filter);
        assert(selection(first + second, filter) =~= selection(first, filter) + selection(
            second,
            filter,
        ));
    } else {
        assert(first + second =~= first);
        if first.len() > 0 {
            lemma_selections_add_up(first.drop_last(), second, filter);
        }
    }
}

/// A response passes exactly where it is JSON with status 200 and no error code of
/// its own; an error code is reported with the message beside it, and a bad status
/// without one is reported as such.
pub proof fn lemma_what_passes_the_envelope(
    path: Seq<char>,
    status: u16,
    body: Seq<u8>,
    value: JsonView,
)
    ensures
        ({
            let verdict = enveloped(path, status, body, Some(value));
            let code = json::integer_in(json::member(value, "errCode"@));
            &&& (status == 200 && (code is None || code == Some(200i64))) <==> verdict
                == Ok::<JsonView, ErrorView>(value)
            &&& (code matches Some(code) && code != 200) ==> (json::member(
                value,
                "errMsg"@,
            ) matches Some(JsonView::Text(said)) ==> (verdict matches Err(
                ErrorView::CameraApi { message, .. },
            ) && message == said))
            &&& (code is None || code == Some(200i64)) && status != 200 ==> (
            verdict matches Err(ErrorView::Http(_)))
        }),
{
}

/// A camera that answered is up; one that did not is asked again before the time is
/// over, and then given up on by its own name, after so many whole seconds.
pub proof fn lemma_giving_up(host: Seq<char>, elapsed: u64, timeout: u64)
    ensures
        elapsed < timeout <==> (waited(host, false, elapsed, timeout) is Again),
        elapsed >= timeout <==> (waited(host, false, elapsed, timeout) is GiveUp),
        waited(host, false, elapsed, timeout) matches WaitView::Again(pause) ==> 0 < pause < 1000,
        waited(host, false, elapsed, timeout) matches WaitView::GiveUp(
            ErrorView::CameraUnreachable { host: asked, secs },
        ) ==> asked == host && secs * 1000 <= timeout < (secs + 1) * 1000,
{
}

/// However many slashes a path begins with, its URL has one behind the host.
pub proof fn lemma_urls(host: Seq<char>, slashes: nat, rest: Seq<char>)
    requires
        rest.len() > 0 ==> rest[0] != '/',
    ensures
        url_of(host, Seq::new(slashes, |i: int| '/') + rest) == "http://"@ + host + "/"@ + rest,
{
    text::lemma_leading_slashes(slashes, rest);
}

/// A photo is served below its directory and under its name: a GR II serves it from
/// the root, every other model below `/v1/photos`, where its description lies beside
/// it.
pub proof fn lemma_where_photos_are_served(photo: PhotoView)
    ensures
        body_path(photo, true) == "/"@ + photo.key(),
        body_path(photo, false) == "/v1/photos/"@ + photo.key(),
        info_path(photo) == body_path(photo, false) + "/info"@,
{
    reveal_strlit("/");
    assert("/"@ =~= seq!['/']);
    assert(body_path(photo, true) =~= "/"@ + photo.key());
    assert(body_path(photo, false) =~= "/v1/photos/"@ + photo.key());
    assert(info_path(photo) =~= body_path(photo, false) + "/info"@);
}

/// A description says what the camera wrote in it: each of its facts is the text or
/// the number of the member that is named for it, and of the two names that firmware
/// and serial number may go by, the first that is there counts.
pub proof fn lemma_what_a_description_says(value: JsonView, said: Seq<char>)
    ensures
        json::member(value, "model"@) == Some(JsonView::Text(said)) ==> props_of(value).model
            == said,
        json::text_in(json::member(value, "model"@)) is None ==> props_of(value).model.len() == 0,
        json::member(value, "firmwareVersion"@) == Some(JsonView::Text(said)) ==> props_of(
            value,
        ).firmware == Some(said),
        json::text_in(json::member(value, "firmwareVersion"@)) is None ==> props_of(value).firmware
            == json::text_in(json::member(value, "version"@)),
        json::member(value, "serialNo"@) == Some(JsonView::Text(said)) ==> props_of(value).serial
            == Some(said),
        json::text_in(json::member(value, "serialNo"@)) is None ==> props_of(value).serial
            == json::text_in(json::member(value, "serialNumber"@)),
        props_of(value).battery == json::integer_in(json::member(value, "battery"@)),
{
}

/// A body is whole exactly where it is not empty and as long as was announced, if
/// that was; and a length is announced exactly where the header is a number.
pub proof fn lemma_whole_bodies(key: Seq<char>, written: u64, announced: u64)
    ensures
        length_verdict(key, written, None) is Ok <==> written > 0,
        length_verdict(key, written, Some(announced)) is Ok <==> written > 0 && written
            == announced,
        announced_length(Some(text::decimal(announced as nat))) == Some(announced),
        announced_length(None) is None,
{
    text::lemma_numbers_read_back(announced as nat, u64::MAX as nat, 0);
    let zeros = Seq::new(0, |i: int| '0');
    assert(zeros + text::decimal(announced as nat) =~= text::decimal(announced as nat));
}

/// A download goes to its destination by way of a file beside it, in the same folder,
/// and asks the camera for the photo that was meant.
pub proof fn lemma_a_download_stays_in_its_folder(
    host: Seq<char>,
    photo: PhotoView,
    folder: Seq<char>,
    name: Seq<char>,
    legacy: bool,
)
    requires
        paths::tidied(folder) == folder,
        folder.len() > 0,
        name.len() > 0,
        name != seq!['.'],
        name != seq!['.', '.'],
        forall|i: int| 0 <= i < name.len() ==> name[i] != '/',
    ensures
        ({
            let destination = paths::joined(folder, name);
            let transfer = transfer_of(host, photo, destination, legacy);
            &&& transfer.destination == destination
            &&& transfer.folder == folder
            &&& transfer.partial == paths::joined(folder, name + ".part"@)
            &&& transfer.partial != transfer.destination
            &&& transfer.url == url_of(host, body_path(photo, legacy))
            &&& transfer.key == photo.key()
        }),
{
    paths::lemma_a_file_lies_in_its_folder(folder, name, ".part"@);
    reveal_strlit(".part");
    let partial = transfer_of(host, photo, paths::joined(folder, name), legacy).partial;
    assert(partial.len() == paths::joined(folder, name).len() + 5);
}

/// What a download asks for on the way, a piece of work for each reply.
pub open spec fn download_works(
    transfer: TransferView,
    phase: PhaseView,
    replies: Seq<WorkReplyView>,
) -> Seq<WorkView>
    decreases replies.len(),
{
    if replies.len() == 0 {
        seq![]
    } else {
        seq![work_of(transfer, phase)] + match download_next(transfer, phase, replies[0]) {
            StepView::More(next) => download_works(transfer, next, replies.skip(1)),
            StepView::Done(_) => seq![],
        }
    }
}

/// Of a whole download in which nothing fails: it makes the folder, requests the photo,
/// creates the partial file, copies the body into it and renames it, in this order; and
/// it gives the number of bytes copied, where those are as many as announced, and not
/// none.
pub proof fn lemma_a_download_in_which_nothing_fails(
    transfer: TransferView,
    length: Option<Seq<char>>,
    written: u64,
    replies: Seq<WorkReplyView>,
)
    requires
        replies == seq![
            WorkReplyView::Done,
            WorkReplyView::Response { status: 200, length },
            WorkReplyView::Done,
            WorkReplyView::Copied(written),
            WorkReplyView::Done,
        ],
    ensures
        download_works(transfer, PhaseView::Folder, replies).take(4) == seq![
            WorkView::CreateFolder(transfer.folder),
            WorkView::Get(transfer.url),
            WorkView::CreateFile(transfer.partial),
            WorkView::Copy,
        ],
        (written > 0 && (announced_length(length) is None || announced_length(length) == Some(
            written,
        ))) <==> downloaded(transfer, PhaseView::Folder, replies) == Some(
            Ok::<u64, ErrorView>(written),
        ),
        (downloaded(transfer, PhaseView::Folder, replies) matches Some(Ok(_))) ==> download_works(
            transfer,
            PhaseView::Folder,
            replies,
        ).last() == (WorkView::Rename { from: transfer.partial, to: transfer.destination }),
        (downloaded(transfer, PhaseView::Folder, replies) matches Some(Err(_))) ==> download_works(
            transfer,
            PhaseView::Folder,
            replies,
        ).last() == WorkView::Remove(transfer.partial),
{
    reveal_with_fuel(download_works, 6);
    reveal_with_fuel(downloaded, 6);
    let one = replies.skip(1);
    let two = one.skip(1);
    let three = two.skip(1);
    let four = three.skip(1);
    assert(one[0] == replies[1]);
    assert(two[0] == replies[2]);
    assert(three[0] == replies[3]);
    assert(four[0] == replies[4]);
    assert(four.skip(1).len() == 0);
    assert(download_works(transfer, PhaseView::Folder, replies).take(4) =~= seq![
        WorkView::CreateFolder(transfer.folder),
        WorkView::Get(transfer.url),
        WorkView::CreateFile(transfer.partial),
        WorkView::Copy,
    ]);
}

/// A download fails for the reason it was given: whatever was asked for and failed,
/// what is reported in the end says why, and a status other than 200 is reported by its
/// number.
pub proof fn lemma_a_download_fails_for_its_reason(
    transfer: TransferView,
    phase: PhaseView,
    reason: Seq<char>,
    status: u16,
    length: Option<Seq<char>>,
)
    requires
        !(phase is Remove),
    ensures
        ({
            let step = download_next(transfer, phase, WorkReplyView::Failed(reason));
            let error = match step {
                StepView::Done(Err(error)) => Some(error),
                StepView::More(PhaseView::Remove { error }) => Some(error),
                _ => None,
            };
            match error {
                Some(ErrorView::Io { source, .. }) => source == reason,
                Some(ErrorView::Http(said)) => said.len() >= reason.len() && said.skip(
                    said.len() - reason.len(),
                ) == reason,
                _ => false,
            }
        }),
        status != 200 ==> (download_next(
            transfer,
            PhaseView::Request,
            WorkReplyView::Response { status, length },
        ) matches StepView::More(PhaseView::Remove { error: ErrorView::Http(said) }) && said
            == transfer.key + " -> HTTP "@ + text::decimal(status as nat)),
{
    let step = download_next(transfer, phase, WorkReplyView::Failed(reason));
    if let StepView::More(PhaseView::Remove { error: ErrorView::Http(said) }) = step {
        assert(said.skip(said.len() - reason.len()) =~= reason);
    }
}

} // verus!
