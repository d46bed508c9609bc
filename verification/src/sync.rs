//! The full sync: BLE wake → AP up → join → HTTP pull → put everything back.
//!
//! This is the piece none of the existing GR III tools have. GRsync and
//! ricoh-download both start from "the operator has already turned the camera's
//! Wi-Fi on and joined its network by hand"; the BLE work here removes that
//! step, and the teardown discipline below is what makes it safe to run
//! unattended.
//!
//! Ordering is not incidental:
//!
//! 1. BLE wakes the camera and raises the AP, then **disconnects before any
//!    bulk transfer**. Bluetooth and 2.4 GHz Wi-Fi share an antenna on most
//!    combo radios, and holding an idle BLE link across a multi-gigabyte pull
//!    costs throughput on both sides for no benefit.
//! 2. The camera's AP is torn down over HTTP (`/v1/device/wlan/finish`) while
//!    we are still associated with it: the only teardown step that needs the
//!    camera's own network, and one that needs no second BLE session.
//! 3. The host's original association is restored unconditionally once it was
//!    made to join the camera, even where that failed, so an interrupted sync
//!    never strands the machine on a camera AP with no route to anywhere.
//!
//! Each phase is a procedure: it says what to do, takes what came of it, and
//! goes on. Every step is reported as an event, a JSON object that wrappers (a
//! photo-manager plugin, a systemd unit) consume instead of scraping stdout.

use crate::camera::{Filter, FilterView, PhotoRef, PhotoView};
use crate::config;
use crate::config::{Config, ConfigView, Environment, EnvironmentView};
use crate::json;
use crate::json::{Json, JsonView};
use crate::paths;
use vstd::prelude::*;

pub mod bring_up;
pub mod conduct;
pub mod history;
pub mod pull;
pub mod run;
pub mod wifi;

pub use bring_up::BleHandoff;

verus! {

/// How to sync. Times are in milliseconds.
#[derive(Debug)]
pub struct Options {
    pub dest: String,
    pub use_ble: bool,
    pub address: Option<String>,
    pub host: String,
    pub jpeg: bool,
    pub raw: bool,
    pub last: Option<usize>,
    pub directory: Option<String>,
    pub dry_run: bool,
    pub power_off: bool,
    pub keep_dirs: bool,
    pub wifi_backend: Option<String>,
    pub wifi_interface: Option<String>,
    pub min_battery: i8,
    pub scan_timeout: u64,
    pub ap_timeout: u64,
    pub http_timeout: u64,
    pub wake_settle: u64,
    pub ap_settle: u64,
}

/// How to sync, mathematically.
#[verifier::ext_equal]
pub struct OptionsView {
    pub dest: Seq<char>,
    pub use_ble: bool,
    pub address: Option<Seq<char>>,
    pub host: Seq<char>,
    pub jpeg: bool,
    pub raw: bool,
    pub last: Option<usize>,
    pub directory: Option<Seq<char>>,
    pub dry_run: bool,
    pub power_off: bool,
    pub keep_dirs: bool,
    pub wifi_backend: Option<Seq<char>>,
    pub wifi_interface: Option<Seq<char>>,
    pub min_battery: i8,
    pub scan_timeout: u64,
    pub ap_timeout: u64,
    pub http_timeout: u64,
    pub wake_settle: u64,
    pub ap_settle: u64,
}

impl View for Options {
    type V = OptionsView;

    open spec fn view(&self) -> OptionsView {
        OptionsView {
            dest: self.dest@,
            use_ble: self.use_ble,
            address: self.address.deep_view(),
            host: self.host@,
            jpeg: self.jpeg,
            raw: self.raw,
            last: self.last,
            directory: self.directory.deep_view(),
            dry_run: self.dry_run,
            power_off: self.power_off,
            keep_dirs: self.keep_dirs,
            wifi_backend: self.wifi_backend.deep_view(),
            wifi_interface: self.wifi_interface.deep_view(),
            min_battery: self.min_battery,
            scan_timeout: self.scan_timeout,
            ap_timeout: self.ap_timeout,
            http_timeout: self.http_timeout,
            wake_settle: self.wake_settle,
            ap_settle: self.ap_settle,
        }
    }
}

/// What a configuration asks for.
pub open spec fn configured(
    config: ConfigView,
    dest: Option<Seq<char>>,
    env: EnvironmentView,
) -> OptionsView {
    OptionsView {
        dest: config::destination(config, dest, env),
        use_ble: true,
        address: config.address,
        host: config.host,
        jpeg: true,
        raw: true,
        last: None,
        directory: None,
        dry_run: false,
        power_off: config.power_off,
        keep_dirs: config.keep_dirs,
        wifi_backend: config.wifi_backend,
        wifi_interface: config.wifi_interface,
        min_battery: config.min_battery,
        scan_timeout: 10000,
        ap_timeout: 45000,
        http_timeout: 300000,
        wake_settle: 1500,
        ap_settle: 3000,
    }
}

impl OptionsView {
    /// Which files are wanted.
    pub open spec fn filter(self) -> FilterView {
        FilterView {
            jpeg: self.jpeg,
            raw: self.raw,
            last: self.last,
            directory: self.directory,
        }
    }
}

impl Options {
    pub fn from_config(config: &Config, dest: Option<&str>, env: &Environment) -> (options: Self)
        ensures
            options@ == configured(config@, dest.deep_view(), env@),
    {
        Options {
            dest: config.resolved_dest(dest, env),
            use_ble: true,
            address: config.address.clone(),
            host: config.host.clone(),
            jpeg: true,
            raw: true,
            last: None,
            directory: None,
            dry_run: false,
            power_off: config.power_off,
            keep_dirs: config.keep_dirs,
            wifi_backend: config.wifi_backend.clone(),
            wifi_interface: config.wifi_interface.clone(),
            min_battery: config.min_battery,
            scan_timeout: 10000,
            ap_timeout: 45000,
            http_timeout: 300000,
            wake_settle: 1500,
            ap_settle: 3000,
        }
    }

    /// Which files are wanted.
    pub fn filter(&self) -> (filter: Filter<'_>)
        ensures
            filter@ == self@.filter(),
    {
        Filter {
            jpeg: self.jpeg,
            raw: self.raw,
            last: self.last,
            directory: match &self.directory {
                Some(directory) => Some(directory.as_str()),
                None => None,
            },
        }
    }
}

/// What a sync did.
#[derive(Debug)]
pub struct Outcome {
    pub downloaded: Vec<String>,
    pub skipped: Vec<String>,
    pub failed: Vec<Failure>,
    pub bytes_written: u64,
    pub model: Option<String>,
    pub battery: Option<i64>,
    pub dest: Option<String>,
    pub dry_run: bool,
}

/// What a sync did, mathematically.
#[verifier::ext_equal]
pub struct OutcomeView {
    pub downloaded: Seq<Seq<char>>,
    pub skipped: Seq<Seq<char>>,
    pub failed: Seq<FailureView>,
    pub bytes_written: u64,
    pub model: Option<Seq<char>>,
    pub battery: Option<i64>,
    pub dest: Option<Seq<char>>,
    pub dry_run: bool,
}

#[derive(Debug)]
pub struct Failure {
    pub photo: String,
    pub error: String,
}

/// A file that did not arrive, and why, mathematically.
#[verifier::ext_equal]
pub struct FailureView {
    pub photo: Seq<char>,
    pub error: Seq<char>,
}

impl View for Failure {
    type V = FailureView;

    open spec fn view(&self) -> FailureView {
        FailureView { photo: self.photo@, error: self.error@ }
    }
}

impl DeepView for Failure {
    type V = FailureView;

    open spec fn deep_view(&self) -> FailureView {
        self@
    }
}

impl View for Outcome {
    type V = OutcomeView;

    open spec fn view(&self) -> OutcomeView {
        OutcomeView {
            downloaded: self.downloaded.deep_view(),
            skipped: self.skipped.deep_view(),
            failed: self.failed.deep_view(),
            bytes_written: self.bytes_written,
            model: self.model.deep_view(),
            battery: self.battery,
            dest: self.dest.deep_view(),
            dry_run: self.dry_run,
        }
    }
}

impl DeepView for Outcome {
    type V = OutcomeView;

    open spec fn deep_view(&self) -> OutcomeView {
        self@
    }
}

/// Nothing done yet.
pub open spec fn empty_outcome() -> OutcomeView {
    OutcomeView {
        downloaded: seq![],
        skipped: seq![],
        failed: seq![],
        bytes_written: 0,
        model: None,
        battery: None,
        dest: None,
        dry_run: false,
    }
}

impl Default for Outcome {
    fn default() -> (outcome: Self)
        ensures
            outcome@ == empty_outcome(),
    {
        let outcome = Outcome {
            downloaded: Vec::new(),
            skipped: Vec::new(),
            failed: Vec::new(),
            bytes_written: 0,
            model: None,
            battery: None,
            dest: None,
            dry_run: false,
        };
        assert(outcome@ =~= empty_outcome());
        outcome
    }
}

/// A failure, as a JSON value.
pub open spec fn failure_json(failure: FailureView) -> JsonView {
    JsonView::Object(
        seq![
            ("photo"@, JsonView::Text(failure.photo)),
            ("error"@, JsonView::Text(failure.error)),
        ],
    )
}

/// The members of an outcome's JSON object.
pub open spec fn outcome_members(outcome: OutcomeView) -> Seq<(Seq<char>, JsonView)> {
    seq![
        ("downloaded"@, json::texts_view(outcome.downloaded)),
        ("skipped"@, json::texts_view(outcome.skipped)),
        (
            "failed"@,
            JsonView::Array(outcome.failed.map_values(|f: FailureView| failure_json(f))),
        ),
        ("bytes_written"@, json::number_view(outcome.bytes_written as int)),
        ("model"@, json::optional_text_view(outcome.model)),
        ("battery"@, json::optional_number_view(outcome.battery)),
        ("dest"@, json::optional_text_view(outcome.dest)),
        ("dry_run"@, JsonView::Bool(outcome.dry_run)),
        ("ok"@, JsonView::Bool(outcome.failed.len() == 0)),
    ]
}

impl Outcome {
    pub fn ok(&self) -> (yes: bool)
        ensures
            yes == (self@.failed.len() == 0),
    {
        self.failed.len() == 0
    }

    fn members(&self) -> (members: Vec<(String, Json)>)
        ensures
            members.deep_view() == outcome_members(self@),
    {
        let mut failed: Vec<Json> = Vec::new();
        let mut i: usize = 0;
        while i < self.failed.len()
            invariant
                i <= self.failed@.len(),
                failed@.len() == i,
                forall|j: int|
                    0 <= j < i ==> (#[trigger] failed@[j])@ == failure_json(self.failed@[j]@),
            decreases self.failed@.len() - i,
        {
            let failure = &self.failed[i];
            let members: Vec<(String, Json)> = vec![
                json::named("photo", json::of_text(failure.photo.as_str())),
                json::named("error", json::of_text(failure.error.as_str())),
            ];
            assert(members.deep_view() == failure_json(failure@)->Object_0);
            failed.push(json::of_members(members));
            i += 1;
        }
        assert(failed.deep_view() == self@.failed.map_values(|f: FailureView| failure_json(f)));
        let members: Vec<(String, Json)> = vec![
            json::named("downloaded", json::of_texts(&self.downloaded)),
            json::named("skipped", json::of_texts(&self.skipped)),
            json::named("failed", json::of_items(failed)),
            json::named("bytes_written", json::of_number(self.bytes_written as i128)),
            json::named("model", json::of_optional_text(&self.model)),
            json::named("battery", json::of_optional_number(self.battery)),
            json::named("dest", json::of_optional_text(&self.dest)),
            json::named("dry_run", Json::Bool(self.dry_run)),
            json::named("ok", Json::Bool(self.ok())),
        ];
        assert(members.deep_view() == outcome_members(self@));
        members
    }

    pub fn as_json(&self) -> (value: Json)
        ensures
            value@ == JsonView::Object(outcome_members(self@)),
    {
        json::of_members(self.members())
    }

    /// The event that ends a sync.
    pub fn done_json(&self) -> (value: Json)
        ensures
            value@ == done_event(self@),
    {
        event_json("done", self.members())
    }
}

/// Where a file goes.
pub open spec fn local(dest: Seq<char>, photo: PhotoView, keep_dirs: bool) -> Seq<char> {
    if keep_dirs {
        paths::joined(paths::joined(dest, photo.directory), photo.filename)
    } else {
        paths::joined(dest, photo.filename)
    }
}

pub fn local_path(dest: &str, photo: &PhotoRef, keep_dirs: bool) -> (path: String)
    ensures
        path@ == local(dest@, photo@, keep_dirs),
{
    if keep_dirs {
        let folder = paths::join(dest, photo.directory.as_str());
        paths::join(folder.as_str(), photo.filename.as_str())
    } else {
        paths::join(dest, photo.filename.as_str())
    }
}

/// What identifies a file on disk and in the ledger.
pub open spec fn key_of(photo: PhotoView, keep_dirs: bool) -> Seq<char> {
    if keep_dirs {
        photo.key()
    } else {
        photo.filename
    }
}

/// Identity used for the on-disk check and the ledger.
///
/// Must agree with [`local_path`], or a flattened destination would look empty
/// on every run and re-download the whole card.
pub fn ledger_key(photo: &PhotoRef, keep_dirs: bool) -> (key: String)
    ensures
        key@ == key_of(photo@, keep_dirs),
{
    if keep_dirs {
        photo.key()
    } else {
        photo.filename.clone()
    }
}

/// A file goes to where its key is looked for. A directory without a name, and a
/// file's name that starts with a slash, are no names of files on a card.
pub proof fn lemma_local_path_and_ledger_key_agree(
    dest: Seq<char>,
    photo: PhotoView,
    keep_dirs: bool,
)
    requires
        keep_dirs ==> photo.directory.len() > 0,
        keep_dirs ==> photo.filename.len() == 0 || photo.filename[0] != '/',
    ensures
        paths::same_path(
            local(dest, photo, keep_dirs),
            paths::joined(dest, key_of(photo, keep_dirs)),
        ),
        !keep_dirs || photo.directory.last() != '/' ==> local(dest, photo, keep_dirs)
            == paths::joined(dest, key_of(photo, keep_dirs)),
{
    if keep_dirs {
        let folder = paths::joined(dest, photo.directory);
        assert(folder.len() > 0 && folder.last() == photo.directory.last());
        if folder.last() == '/' {
            paths::lemma_a_slash_more(folder, photo.filename);
        }
        assert(folder.push('/') + photo.filename == paths::joined(
            dest,
            photo.directory.push('/') + photo.filename,
        ));
    }
}

/// An event, as a JSON value.
pub open spec fn event(name: Seq<char>, members: Seq<(Seq<char>, JsonView)>) -> JsonView {
    JsonView::Object(seq![("event"@, JsonView::Text(name))] + members)
}

pub(crate) fn event_json(name: &str, members: Vec<(String, Json)>) -> (value: Json)
    ensures
        value@ == event(name@, members.deep_view()),
{
    let mut all: Vec<(String, Json)> = Vec::new();
    all.push(json::named("event", json::of_text(name)));
    let mut members = members;
    let ghost rest = members.deep_view();
    all.append(&mut members);
    assert(all.deep_view() == seq![("event"@, JsonView::Text(name@))] + rest);
    json::of_members(all)
}

/// Every event is an object whose `event` member says which it is.
pub proof fn lemma_events_name_themselves(name: Seq<char>, members: Seq<(Seq<char>, JsonView)>)
    ensures
        event(name, members) is Object,
        json::text_in(json::member(event(name, members), "event"@)) == Some(name),
{
    let all = seq![("event"@, JsonView::Text(name))] + members;
    assert(all[0] == ("event"@, JsonView::Text(name)));
}

/// The event that ends a sync.
pub open spec fn done_event(outcome: OutcomeView) -> JsonView {
    event("done"@, outcome_members(outcome))
}

pub(crate) fn no_events() -> (events: Vec<Json>)
    ensures
        events.deep_view() == Seq::<JsonView>::empty(),
{
    let events: Vec<Json> = Vec::new();
    assert(events.deep_view() =~= Seq::empty());
    events
}

pub(crate) fn one_event(event: Json) -> (events: Vec<Json>)
    ensures
        events.deep_view() == seq![event@],
{
    let events: Vec<Json> = vec![event];
    assert(events.deep_view() =~= seq![event@]);
    events
}

pub(crate) fn followed_by(first: Vec<Json>, second: Vec<Json>) -> (events: Vec<Json>)
    ensures
        events.deep_view() == first.deep_view() + second.deep_view(),
{
    let mut events = first;
    let mut second = second;
    let ghost tail = second.deep_view();
    events.append(&mut second);
    assert(events.deep_view() =~= first.deep_view() + tail);
    events
}

/// A configuration's own keys all reach the sync, which is otherwise for every file,
/// over Bluetooth, and no dry run.
pub proof fn lemma_the_configuration_is_followed(
    config: ConfigView,
    dest: Option<Seq<char>>,
    env: EnvironmentView,
)
    ensures
        ({
            let options = configured(config, dest, env);
            &&& options.dest == config::destination(config, dest, env)
            &&& options.address == config.address
            &&& options.host == config.host
            &&& options.wifi_backend == config.wifi_backend
            &&& options.wifi_interface == config.wifi_interface
            &&& options.min_battery == config.min_battery
            &&& options.power_off == config.power_off
            &&& options.keep_dirs == config.keep_dirs
            &&& options.use_ble && !options.dry_run
            &&& options.jpeg && options.raw && options.last is None && options.directory is None
        }),
{
}

/// Files of different directories keep apart where directories are kept, and only
/// there: flattened, a file goes by its name alone.
pub proof fn lemma_directories_keep_files_apart(a: PhotoView, b: PhotoView, dest: Seq<char>)
    requires
        forall|i: int| 0 <= i < a.filename.len() ==> a.filename[i] != '/',
        forall|i: int| 0 <= i < b.filename.len() ==> b.filename[i] != '/',
    ensures
        key_of(a, true) == key_of(b, true) ==> a == b,
        key_of(a, false) == key_of(b, false) <==> a.filename == b.filename,
        a.filename == b.filename ==> local(dest, a, false) == local(dest, b, false),
{
    let x = a.key();
    let y = b.key();
    assert(x.len() == a.directory.len() + 1 + a.filename.len());
    assert(y.len() == b.directory.len() + 1 + b.filename.len());
    if x == y {
        if a.filename.len() < b.filename.len() {
            assert(x[a.directory.len() as int] == '/');
            assert(y[a.directory.len() as int] == b.filename[a.directory.len()
                - b.directory.len() - 1]);
        } else if b.filename.len() < a.filename.len() {
            assert(y[b.directory.len() as int] == '/');
            assert(x[b.directory.len() as int] == a.filename[b.directory.len()
                - a.directory.len() - 1]);
        } else {
            assert(a.directory =~= x.take(a.directory.len() as int));
            assert(b.directory =~= y.take(b.directory.len() as int));
            assert(a.filename =~= x.skip(a.directory.len() as int + 1));
            assert(b.filename =~= y.skip(b.directory.len() as int + 1));
            assert(a =~= b);
        }
    }
}

/// What the event that ends a sync says of the outcome: what was downloaded, skipped
/// and missed, each in order, how much arrived, and whether all is well, which it is
/// where nothing failed.
pub proof fn lemma_what_is_told_at_the_end(outcome: OutcomeView, value: JsonView)
    requires
        value == JsonView::Object(outcome_members(outcome)) || value == done_event(outcome),
    ensures
        json::member(value, "downloaded"@) matches Some(JsonView::Array(items)) && items.len()
            == outcome.downloaded.len() && (forall|i: int|
            0 <= i < items.len() ==> #[trigger] items[i] == JsonView::Text(outcome.downloaded[i])),
        json::member(value, "skipped"@) matches Some(JsonView::Array(items)) && items.len()
            == outcome.skipped.len() && (forall|i: int|
            0 <= i < items.len() ==> #[trigger] items[i] == JsonView::Text(outcome.skipped[i])),
        json::member(value, "failed"@) matches Some(JsonView::Array(items)) && items.len()
            == outcome.failed.len() && (forall|i: int|
            0 <= i < items.len() ==> json::text_in(
                json::member(#[trigger] items[i], "photo"@),
            ) == Some(outcome.failed[i].photo) && json::text_in(json::member(items[i], "error"@))
                == Some(outcome.failed[i].error)),
        json::member(value, "bytes_written"@) == Some(
            JsonView::Number(Some(outcome.bytes_written as i128)),
        ),
        json::text_in(json::member(value, "model"@)) == outcome.model,
        json::integer_in(json::member(value, "battery"@)) == outcome.battery,
        json::text_in(json::member(value, "dest"@)) == outcome.dest,
        json::flag_in(json::member(value, "dry_run"@)) == Some(outcome.dry_run),
        json::flag_in(json::member(value, "ok"@)) == Some(outcome.failed.len() == 0),
{
    let members = outcome_members(outcome);
    let all = value->Object_0;
    let shift: int = if value == done_event(outcome) {
        1
    } else {
        0
    };
    assert(forall|i: int| 0 <= i < members.len() ==> all[i + shift] == members[i]);
    lemma_member_names();
    reveal_with_fuel(json::member_from, 11);
    let failed = outcome.failed.map_values(|f: FailureView| failure_json(f));
    assert forall|i: int| 0 <= i < failed.len() implies json::text_in(
        json::member(#[trigger] failed[i], "photo"@),
    ) == Some(outcome.failed[i].photo) && json::text_in(json::member(failed[i], "error"@)) == Some(
        outcome.failed[i].error,
    ) by {
        let pair = failure_json(outcome.failed[i])->Object_0;
        assert(pair[0].0 == "photo"@);
        assert(pair[1].0 == "error"@);
    }
}

proof fn lemma_member_names()
    ensures
        "event"@[0] == 'e',
        "photo"@[0] == 'p',
        "error"@.len() == 5 && "error"@[0] == 'e',
        "downloaded"@.len() == 10 && "downloaded"@[1] == 'o',
        "skipped"@[0] == 's',
        "failed"@[0] == 'f',
        "bytes_written"@.len() == 13 && "bytes_written"@[1] == 'y',
        "model"@[0] == 'm',
        "battery"@.len() == 7 && "battery"@[1] == 'a',
        "dest"@.len() == 4 && "dest"@[0] == 'd',
        "dry_run"@.len() == 7 && "dry_run"@[0] == 'd',
        "ok"@[0] == 'o',
        "downloaded"@[0] == 'd',
        "bytes_written"@[0] == 'b',
        "battery"@[0] == 'b',
{
    reveal_strlit("event");
    reveal_strlit("photo");
    reveal_strlit("error");
    reveal_strlit("downloaded");
    reveal_strlit("skipped");
    reveal_strlit("failed");
    reveal_strlit("bytes_written");
    reveal_strlit("model");
    reveal_strlit("battery");
    reveal_strlit("dest");
    reveal_strlit("dry_run");
    reveal_strlit("ok");
}

/// What is asked of the listing is what the options say.
pub proof fn lemma_the_filter_is_what_was_asked(options: OptionsView)
    ensures
        options.filter().jpeg == options.jpeg,
        options.filter().raw == options.raw,
        options.filter().last == options.last,
        options.filter().directory == options.directory,
{
}

} // verus!
