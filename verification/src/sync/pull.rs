//! Downloading everything selected that is not already here.

use crate::camera;
use crate::camera::{CameraProps, PhotoRef, PhotoView, PropsView};
use crate::error;
use crate::error::{ErrorView, Result, ResultView};
use crate::json;
use crate::json::{Json, JsonView};
use crate::procedure::{Step, StepView};
use crate::state;
use crate::state::{Entry, EntryView, Ledger};
use crate::sync;
use crate::sync::{Failure, FailureView, Options, OptionsView, Outcome, OutcomeView};
use vstd::prelude::*;

verus! {

/// Downloads under way: the file number `index` of those pending is the one
/// being fetched.
#[derive(Debug)]
pub struct Transfers {
    model: String,
    legacy: bool,
    pending: Vec<PhotoRef>,
    index: usize,
    ledger: Ledger,
    outcome: Outcome,
}

/// Downloads under way, mathematically.
#[verifier::ext_equal]
pub struct TransfersView {
    pub model: Seq<char>,
    pub legacy: bool,
    pub pending: Seq<PhotoView>,
    pub index: int,
    pub ledger: Map<Seq<char>, EntryView>,
    /// Where the ledger is kept.
    pub file: Seq<char>,
    pub outcome: OutcomeView,
}

impl View for Transfers {
    type V = TransfersView;

    closed spec fn view(&self) -> TransfersView {
        TransfersView {
            model: self.model@,
            legacy: self.legacy,
            pending: self.pending.deep_view(),
            index: self.index as int,
            ledger: self.ledger@,
            file: self.ledger.file(),
            outcome: self.outcome@,
        }
    }
}

impl Transfers {
    #[verifier::type_invariant]
    spec fn in_range(self) -> bool {
        self.index < self.pending@.len()
    }

    /// What has been recorded so far.
    pub fn ledger(&self) -> (ledger: &Ledger)
        ensures
            ledger@ == self@.ledger,
            ledger.file() == self@.file,
    {
        &self.ledger
    }
}

/// Pulling over HTTP, told apart by what is being waited for.
#[derive(Debug)]
pub enum Pull {
    Props,
    Photos { props: CameraProps },
    Inspecting { props: CameraProps, chosen: Vec<PhotoRef> },
    Downloading(Transfers),
    Saving(Transfers),
}

#[verifier::ext_equal]
pub enum PullView {
    Props,
    Photos { props: PropsView },
    Inspecting { props: PropsView, chosen: Seq<PhotoView> },
    Downloading(TransfersView),
    Saving(TransfersView),
}

impl View for Pull {
    type V = PullView;

    open spec fn view(&self) -> PullView {
        match *self {
            Pull::Props => PullView::Props,
            Pull::Photos { props } => PullView::Photos { props: props@ },
            Pull::Inspecting { props, chosen } => {
                PullView::Inspecting { props: props@, chosen: chosen.deep_view() }
            },
            Pull::Downloading(transfers) => PullView::Downloading(transfers@),
            Pull::Saving(transfers) => PullView::Saving(transfers@),
        }
    }
}

impl DeepView for Pull {
    type V = PullView;

    open spec fn deep_view(&self) -> PullView {
        self@
    }
}

/// What pulling asks to be done.
#[derive(Debug)]
pub enum PullWork {
    GetProps,
    GetPhotos,
    /// Read the destination's ledger, and look which of these keys name a file
    /// below it.
    Inspect { keys: Vec<String> },
    Download { photo: PhotoRef, target: String, legacy: bool },
    SaveLedger,
}

#[verifier::ext_equal]
pub enum PullWorkView {
    GetProps,
    GetPhotos,
    Inspect { keys: Seq<Seq<char>> },
    Download { photo: PhotoView, target: Seq<char>, legacy: bool },
    SaveLedger,
}

impl View for PullWork {
    type V = PullWorkView;

    open spec fn view(&self) -> PullWorkView {
        match *self {
            PullWork::GetProps => PullWorkView::GetProps,
            PullWork::GetPhotos => PullWorkView::GetPhotos,
            PullWork::Inspect { keys } => PullWorkView::Inspect { keys: keys.deep_view() },
            PullWork::Download { photo, target, legacy } => {
                PullWorkView::Download { photo: photo@, target: target@, legacy }
            },
            PullWork::SaveLedger => PullWorkView::SaveLedger,
        }
    }
}

/// What came of it.
#[derive(Debug)]
pub enum PullReply {
    Props(Result<CameraProps>),
    Photos(Result<Vec<PhotoRef>>),
    /// The ledger's entries, where it could be read, and for each key whether it
    /// names a file.
    Inspected { entries: Option<Vec<(String, Entry)>>, on_disk: Vec<bool> },
    /// How many bytes were written.
    Downloaded(Result<u64>),
    Saved(Result<()>),
}

#[verifier::ext_equal]
pub enum PullReplyView {
    Props(ResultView<PropsView>),
    Photos(ResultView<Seq<PhotoView>>),
    Inspected { entries: Option<Seq<(Seq<char>, EntryView)>>, on_disk: Seq<bool> },
    Downloaded(ResultView<u64>),
    Saved(ResultView<()>),
}

impl View for PullReply {
    type V = PullReplyView;

    open spec fn view(&self) -> PullReplyView {
        match *self {
            PullReply::Props(result) => PullReplyView::Props(error::seen(result)),
            PullReply::Photos(result) => PullReplyView::Photos(error::seen(result)),
            PullReply::Inspected { entries, on_disk } => {
                PullReplyView::Inspected { entries: entries.deep_view(), on_disk: on_disk@ }
            },
            PullReply::Downloaded(result) => PullReplyView::Downloaded(error::seen(result)),
            PullReply::Saved(result) => PullReplyView::Saved(error::seen(result)),
        }
    }
}

/// The keys of files.
pub open spec fn keys(photos: Seq<PhotoView>, keep_dirs: bool) -> Seq<Seq<char>> {
    photos.map_values(|photo: PhotoView| sync::key_of(photo, keep_dirs))
}

/// What each state of pulling asks for.
pub open spec fn pull_work(options: OptionsView, state: PullView) -> PullWorkView {
    match state {
        PullView::Props => PullWorkView::GetProps,
        PullView::Photos { .. } => PullWorkView::GetPhotos,
        PullView::Inspecting { chosen, .. } => {
            PullWorkView::Inspect { keys: keys(chosen, options.keep_dirs) }
        },
        PullView::Downloading(t) => PullWorkView::Download {
            photo: t.pending[t.index],
            target: sync::local(options.dest, t.pending[t.index], options.keep_dirs),
            legacy: t.legacy,
        },
        PullView::Saving(_) => PullWorkView::SaveLedger,
    }
}

/// Whether a reply is one that the state can have. What has been written in all
/// has to stay countable.
pub open spec fn pull_answered(state: PullView, reply: PullReplyView) -> bool {
    match state {
        PullView::Props => reply is Props,
        PullView::Photos { .. } => reply is Photos,
        PullView::Inspecting { chosen, .. } => reply matches PullReplyView::Inspected {
            on_disk,
            ..
        } && on_disk.len() == chosen.len(),
        PullView::Downloading(t) => reply matches PullReplyView::Downloaded(result) && (result matches Ok(
            written,
        ) ==> t.outcome.bytes_written + written <= u64::MAX),
        PullView::Saving(_) => reply is Saved,
    }
}

/// The ledger that a file's entries make; without any, an empty one.
pub open spec fn ledger_of(entries: Option<Seq<(Seq<char>, EntryView)>>) -> Map<
    Seq<char>,
    EntryView,
> {
    match entries {
        Some(entries) => state::recorded(entries),
        None => Map::empty(),
    }
}

/// The files that are not here yet: neither on disk nor in the ledger.
pub open spec fn pending_of(
    chosen: Seq<PhotoView>,
    on_disk: Seq<bool>,
    ledger: Map<Seq<char>, EntryView>,
    keep_dirs: bool,
) -> Seq<PhotoView>
    decreases chosen.len(),
{
    if chosen.len() == 0 {
        seq![]
    } else {
        let before = pending_of(chosen.drop_last(), on_disk, ledger, keep_dirs);
        if on_disk[chosen.len() - 1] || ledger.contains_key(
            sync::key_of(chosen.last(), keep_dirs),
        ) {
            before
        } else {
            before.push(chosen.last())
        }
    }
}

/// The keys of the files that are here already.
pub open spec fn skipped_of(
    chosen: Seq<PhotoView>,
    on_disk: Seq<bool>,
    ledger: Map<Seq<char>, EntryView>,
    keep_dirs: bool,
) -> Seq<Seq<char>>
    decreases chosen.len(),
{
    if chosen.len() == 0 {
        seq![]
    } else {
        let before = skipped_of(chosen.drop_last(), on_disk, ledger, keep_dirs);
        let key = sync::key_of(chosen.last(), keep_dirs);
        if on_disk[chosen.len() - 1] || ledger.contains_key(key) {
            before.push(key)
        } else {
            before
        }
    }
}

pub open spec fn props_event(props: PropsView) -> JsonView {
    sync::event(
        "http.props"@,
        seq![
            ("model"@, JsonView::Text(props.model)),
            ("battery"@, json::optional_number_view(props.battery)),
        ],
    )
}

pub open spec fn listed_event(total: nat) -> JsonView {
    sync::event("http.listed"@, seq![("total"@, json::number_view(total as int))])
}

pub open spec fn plan_event(selected: nat, pending: nat, skipped: nat) -> JsonView {
    sync::event(
        "plan"@,
        seq![
            ("selected"@, json::number_view(selected as int)),
            ("pending"@, json::number_view(pending as int)),
            ("skipped"@, json::number_view(skipped as int)),
        ],
    )
}

pub open spec fn start_event(key: Seq<char>, number: int, of: nat) -> JsonView {
    sync::event(
        "download.start"@,
        seq![
            ("photo"@, JsonView::Text(key)),
            ("index"@, json::number_view(number)),
            ("of"@, json::number_view(of as int)),
        ],
    )
}

pub open spec fn finished_event(key: Seq<char>, written: u64) -> JsonView {
    sync::event(
        "download.done"@,
        seq![
            ("photo"@, JsonView::Text(key)),
            ("bytes"@, json::number_view(written as int)),
        ],
    )
}

pub open spec fn failed_event(key: Seq<char>, error: ErrorView) -> JsonView {
    sync::event(
        "download.failed"@,
        seq![
            ("photo"@, JsonView::Text(key)),
            ("error"@, JsonView::Text(error::error_message(error))),
        ],
    )
}

pub open spec fn save_failed_event(error: ErrorView) -> JsonView {
    sync::event(
        "ledger.save_failed"@,
        seq![("error"@, JsonView::Text(error::error_message(error)))],
    )
}

/// The outcome of a pull that has only been planned.
pub open spec fn planned(
    options: OptionsView,
    props: PropsView,
    skipped: Seq<Seq<char>>,
) -> OutcomeView {
    OutcomeView {
        downloaded: seq![],
        skipped,
        failed: seq![],
        bytes_written: 0,
        model: Some(props.model),
        battery: props.battery,
        dest: Some(options.dest),
        dry_run: options.dry_run,
    }
}

/// Going on with the file that the downloads are at; where none is left, being
/// done.
pub open spec fn onward(options: OptionsView, t: TransfersView) -> (
    Seq<JsonView>,
    StepView<PullView, OutcomeView>,
) {
    if t.index >= t.pending.len() {
        (seq![], StepView::Done(Ok(t.outcome)))
    } else {
        (
            seq![
                start_event(
                    sync::key_of(t.pending[t.index], options.keep_dirs),
                    t.index + 1,
                    t.pending.len(),
                ),
            ],
            StepView::More(PullView::Downloading(t)),
        )
    }
}

/// Downloads after the file they are at has arrived: it is counted, and
/// recorded.
pub open spec fn arrived(options: OptionsView, t: TransfersView, written: u64) -> TransfersView {
    let key = sync::key_of(t.pending[t.index], options.keep_dirs);
    TransfersView {
        ledger: t.ledger.insert(key, EntryView { size: written, camera: Some(t.model) }),
        outcome: OutcomeView {
            downloaded: t.outcome.downloaded.push(key),
            bytes_written: (t.outcome.bytes_written + written) as u64,
            ..t.outcome
        },
        ..t
    }
}

/// Downloads after the file they are at has failed: it is noted, and passed
/// over.
pub open spec fn passed_over(
    options: OptionsView,
    t: TransfersView,
    error: ErrorView,
) -> TransfersView {
    let key = sync::key_of(t.pending[t.index], options.keep_dirs);
    TransfersView {
        index: t.index + 1,
        outcome: OutcomeView {
            failed: t.outcome.failed.push(
                FailureView { photo: key, error: error::error_message(error) },
            ),
            ..t.outcome
        },
        ..t
    }
}

/// How pulling goes on, and what is reported.
pub open spec fn pull_next(options: OptionsView, state: PullView, reply: PullReplyView) -> (
    Seq<JsonView>,
    StepView<PullView, OutcomeView>,
) {
    match (state, reply) {
        (PullView::Props, PullReplyView::Props(result)) => match result {
            Ok(props) => (seq![props_event(props)], StepView::More(PullView::Photos { props })),
            Err(error) => (seq![], StepView::Done(Err(error))),
        },
        (PullView::Photos { props }, PullReplyView::Photos(result)) => match result {
            Ok(all) => (
                seq![listed_event(all.len())],
                StepView::More(
                    PullView::Inspecting {
                        props,
                        chosen: camera::selection(all, options.filter()),
                    },
                ),
            ),
            Err(error) => (seq![], StepView::Done(Err(error))),
        },
        (
            PullView::Inspecting { props, chosen },
            PullReplyView::Inspected { entries, on_disk },
        ) => {
            let ledger = ledger_of(entries);
            let pending = pending_of(chosen, on_disk, ledger, options.keep_dirs);
            let skipped = skipped_of(chosen, on_disk, ledger, options.keep_dirs);
            let plan = plan_event(chosen.len(), pending.len(), skipped.len());
            let outcome = planned(options, props, skipped);
            if options.dry_run {
                (
                    seq![plan],
                    StepView::Done(
                        Ok(
                            OutcomeView {
                                downloaded: keys(pending, options.keep_dirs),
                                ..outcome
                            },
                        ),
                    ),
                )
            } else {
                let next = onward(
                    options,
                    TransfersView {
                        model: props.model,
                        legacy: props.is_legacy_path(),
                        pending,
                        index: 0,
                        ledger,
                        file: state::ledger_path(options.dest),
                        outcome,
                    },
                );
                (seq![plan] + next.0, next.1)
            }
        },
        (PullView::Downloading(t), PullReplyView::Downloaded(result)) => {
            let key = sync::key_of(t.pending[t.index], options.keep_dirs);
            match result {
                Ok(written) => (
                    seq![finished_event(key, written)],
                    StepView::More(PullView::Saving(arrived(options, t, written))),
                ),
                Err(error) => {
                    let next = onward(options, passed_over(options, t, error));
                    (seq![failed_event(key, error)] + next.0, next.1)
                },
            }
        },
        (PullView::Saving(t), PullReplyView::Saved(result)) => {
            let next = onward(options, TransfersView { index: t.index + 1, ..t });
            match result {
                Ok(_) => next,
                Err(error) => (seq![save_failed_event(error)] + next.0, next.1),
            }
        },
        _ => (seq![], StepView::More(state)),
    }
}

fn keys_of(photos: &Vec<PhotoRef>, keep_dirs: bool) -> (list: Vec<String>)
    ensures
        list.deep_view() == keys(photos.deep_view(), keep_dirs),
{
    let mut list: Vec<String> = Vec::new();
    let mut i: usize = 0;
    while i < photos.len()
        invariant
            i <= photos@.len(),
            list@.len() == i,
            forall|j: int|
                0 <= j < i ==> (#[trigger] list@[j])@ == sync::key_of(photos@[j]@, keep_dirs),
        decreases photos@.len() - i,
    {
        list.push(sync::ledger_key(&photos[i], keep_dirs));
        i += 1;
    }
    assert(list.deep_view() =~= keys(photos.deep_view(), keep_dirs));
    list
}

fn split(chosen: Vec<PhotoRef>, on_disk: &Vec<bool>, ledger: &Ledger, keep_dirs: bool) -> (parts: (
    Vec<PhotoRef>,
    Vec<String>,
))
    requires
        on_disk@.len() == chosen@.len(),
    ensures
        parts.0.deep_view() == pending_of(chosen.deep_view(), on_disk@, ledger@, keep_dirs),
        parts.1.deep_view() == skipped_of(chosen.deep_view(), on_disk@, ledger@, keep_dirs),
{
    let ghost photos = chosen.deep_view();
    let mut pending: Vec<PhotoRef> = Vec::new();
    let mut skipped: Vec<String> = Vec::new();
    let mut i: usize = 0;
    assert(photos.take(0) =~= Seq::empty());
    assert(pending.deep_view() =~= pending_of(photos.take(0), on_disk@, ledger@, keep_dirs));
    assert(skipped.deep_view() =~= skipped_of(photos.take(0), on_disk@, ledger@, keep_dirs));
    while i < chosen.len()
        invariant
            i <= chosen@.len(),
            on_disk@.len() == chosen@.len(),
            photos == chosen.deep_view(),
            pending.deep_view() == pending_of(
                photos.take(i as int),
                on_disk@,
                ledger@,
                keep_dirs,
            ),
            skipped.deep_view() == skipped_of(
                photos.take(i as int),
                on_disk@,
                ledger@,
                keep_dirs,
            ),
        decreases chosen@.len() - i,
    {
        let ghost pending_before = pending.deep_view();
        let ghost skipped_before = skipped.deep_view();
        proof {
            assert(photos.take(i + 1).drop_last() =~= photos.take(i as int));
            assert(photos.take(i + 1).last() == chosen@[i as int]@);
        }
        let key = sync::ledger_key(&chosen[i], keep_dirs);
        if state::already_have(on_disk[i], key.as_str(), ledger) {
            skipped.push(key);
            assert(skipped.deep_view() =~= skipped_before.push(
                sync::key_of(chosen@[i as int]@, keep_dirs),
            ));
        } else {
            pending.push(chosen[i].clone());
            assert(pending.deep_view() =~= pending_before.push(chosen@[i as int]@));
        }
        i += 1;
    }
    assert(photos.take(chosen@.len() as int) =~= photos);
    (pending, skipped)
}

fn props_json(props: &CameraProps) -> (event: Json)
    ensures
        event@ == props_event(props@),
{
    let members: Vec<(String, Json)> = vec![
        json::named("model", json::of_text(props.model.as_str())),
        json::named("battery", json::of_optional_number(props.battery)),
    ];
    assert(members.deep_view() =~= seq![
        ("model"@, JsonView::Text(props@.model)),
        ("battery"@, json::optional_number_view(props@.battery)),
    ]);
    sync::event_json("http.props", members)
}

fn listed_json(total: usize) -> (event: Json)
    ensures
        event@ == listed_event(total as nat),
{
    let members: Vec<(String, Json)> = vec![json::named("total", json::of_number(total as i128))];
    assert(members.deep_view() =~= seq![("total"@, json::number_view(total as int))]);
    sync::event_json("http.listed", members)
}

fn plan_json(selected: usize, pending: usize, skipped: usize) -> (event: Json)
    ensures
        event@ == plan_event(selected as nat, pending as nat, skipped as nat),
{
    let members: Vec<(String, Json)> = vec![
        json::named("selected", json::of_number(selected as i128)),
        json::named("pending", json::of_number(pending as i128)),
        json::named("skipped", json::of_number(skipped as i128)),
    ];
    assert(members.deep_view() =~= seq![
        ("selected"@, json::number_view(selected as int)),
        ("pending"@, json::number_view(pending as int)),
        ("skipped"@, json::number_view(skipped as int)),
    ]);
    sync::event_json("plan", members)
}

fn start_json(key: &str, number: usize, of: usize) -> (event: Json)
    ensures
        event@ == start_event(key@, number as int, of as nat),
{
    let members: Vec<(String, Json)> = vec![
        json::named("photo", json::of_text(key)),
        json::named("index", json::of_number(number as i128)),
        json::named("of", json::of_number(of as i128)),
    ];
    assert(members.deep_view() =~= seq![
        ("photo"@, JsonView::Text(key@)),
        ("index"@, json::number_view(number as int)),
        ("of"@, json::number_view(of as int)),
    ]);
    sync::event_json("download.start", members)
}

fn finished_json(key: &str, written: u64) -> (event: Json)
    ensures
        event@ == finished_event(key@, written),
{
    let members: Vec<(String, Json)> = vec![
        json::named("photo", json::of_text(key)),
        json::named("bytes", json::of_number(written as i128)),
    ];
    assert(members.deep_view() =~= seq![
        ("photo"@, JsonView::Text(key@)),
        ("bytes"@, json::number_view(written as int)),
    ]);
    sync::event_json("download.done", members)
}

fn failed_json(key: &str, message: &str) -> (event: Json)
    ensures
        forall|error: ErrorView|
            error::error_message(error) == message@ ==> event@ == #[trigger] failed_event(
                key@,
                error,
            ),
{
    let members: Vec<(String, Json)> = vec![
        json::named("photo", json::of_text(key)),
        json::named("error", json::of_text(message)),
    ];
    assert(members.deep_view() =~= seq![
        ("photo"@, JsonView::Text(key@)),
        ("error"@, JsonView::Text(message@)),
    ]);
    sync::event_json("download.failed", members)
}

fn save_failed_json(message: &str) -> (event: Json)
    ensures
        forall|error: ErrorView|
            error::error_message(error) == message@ ==> event@ == #[trigger] save_failed_event(
                error,
            ),
{
    let members: Vec<(String, Json)> = vec![json::named("error", json::of_text(message))];
    assert(members.deep_view() =~= seq![("error"@, JsonView::Text(message@))]);
    sync::event_json("ledger.save_failed", members)
}

fn go_on(
    options: &Options,
    model: String,
    legacy: bool,
    pending: Vec<PhotoRef>,
    index: usize,
    ledger: Ledger,
    outcome: Outcome,
) -> (next: (Vec<Json>, Step<Pull, Outcome>))
    ensures
        (next.0.deep_view(), next.1@) == onward(
            options@,
            TransfersView {
                model: model@,
                legacy,
                pending: pending.deep_view(),
                index: index as int,
                ledger: ledger@,
                file: ledger.file(),
                outcome: outcome@,
            },
        ),
{
    if index >= pending.len() {
        (sync::no_events(), Step::Done(Ok(outcome)))
    } else {
        let key = sync::ledger_key(&pending[index], options.keep_dirs);
        let event = start_json(key.as_str(), index + 1, pending.len());
        (
            sync::one_event(event),
            Step::More(
                Pull::Downloading(Transfers { model, legacy, pending, index, ledger, outcome }),
            ),
        )
    }
}

impl Pull {
    /// What to do.
    pub fn work(&self, options: &Options) -> (work: PullWork)
        ensures
            work@ == pull_work(options@, self@),
    {
        match self {
            Pull::Props => PullWork::GetProps,
            Pull::Photos { .. } => PullWork::GetPhotos,
            Pull::Inspecting { chosen, .. } => {
                PullWork::Inspect { keys: keys_of(chosen, options.keep_dirs) }
            },
            Pull::Downloading(transfers) => {
                proof {
                    use_type_invariant(transfers);
                }
                let photo = &transfers.pending[transfers.index];
                PullWork::Download {
                    photo: photo.clone(),
                    target: sync::local_path(options.dest.as_str(), photo, options.keep_dirs),
                    legacy: transfers.legacy,
                }
            },
            Pull::Saving(_) => PullWork::SaveLedger,
        }
    }

    /// Whether a reply is one that the state can have.
    pub fn accepts(&self, reply: &PullReply) -> (yes: bool)
        ensures
            yes == pull_answered(self@, reply@),
    {
        match (self, reply) {
            (Pull::Props, PullReply::Props(_)) => true,
            (Pull::Photos { .. }, PullReply::Photos(_)) => true,
            (Pull::Inspecting { chosen, .. }, PullReply::Inspected { on_disk, .. }) => {
                on_disk.len() == chosen.len()
            },
            (Pull::Downloading(transfers), PullReply::Downloaded(result)) => match result {
                Ok(written) => *written <= u64::MAX - transfers.outcome.bytes_written,
                Err(_) => true,
            },
            (Pull::Saving(_), PullReply::Saved(_)) => true,
            _ => false,
        }
    }

    /// Go on from what came of it, reporting what happened.
    pub fn next(self, options: &Options, reply: PullReply) -> (next: (
        Vec<Json>,
        Step<Pull, Outcome>,
    ))
        requires
            pull_answered(self@, reply@),
        ensures
            (next.0.deep_view(), next.1@) == pull_next(options@, self@, reply@),
    {
        match (self, reply) {
            (Pull::Props, PullReply::Props(result)) => match result {
                Ok(props) => {
                    let event = props_json(&props);
                    (sync::one_event(event), Step::More(Pull::Photos { props }))
                },
                Err(error) => (sync::no_events(), Step::Done(Err(error))),
            },
            (Pull::Photos { props }, PullReply::Photos(result)) => match result {
                Ok(all) => {
                    let event = listed_json(all.len());
                    let list = all.as_slice();
                    assert(list.deep_view() =~= all.deep_view());
                    let chosen = camera::select(list, options.filter());
                    (sync::one_event(event), Step::More(Pull::Inspecting { props, chosen }))
                },
                Err(error) => (sync::no_events(), Step::Done(Err(error))),
            },
            (Pull::Inspecting { props, chosen }, PullReply::Inspected { entries, on_disk }) => {
                let selected: usize = chosen.len();
                let ledger = Ledger::load(options.dest.as_str(), entries);
                assert(ledger@ == ledger_of(entries.deep_view()));
                let (pending, skipped) = split(chosen, &on_disk, &ledger, options.keep_dirs);
                let plan = sync::one_event(plan_json(selected, pending.len(), skipped.len()));
                let mut outcome = Outcome::default();
                outcome.skipped = skipped;
                outcome.dest = Some(options.dest.clone());
                outcome.dry_run = options.dry_run;
                outcome.battery = props.battery;
                outcome.model = Some(props.model.clone());
                assert(outcome@ =~= planned(options@, props@, skipped.deep_view()));
                if options.dry_run {
                    outcome.downloaded = keys_of(&pending, options.keep_dirs);
                    (plan, Step::Done(Ok(outcome)))
                } else {
                    let legacy = props.is_legacy_path();
                    let (events, step) = go_on(
                        options,
                        props.model,
                        legacy,
                        pending,
                        0,
                        ledger,
                        outcome,
                    );
                    (sync::followed_by(plan, events), step)
                }
            },
            (Pull::Downloading(transfers), PullReply::Downloaded(result)) => {
                proof {
                    use_type_invariant(&transfers);
                }
                let ghost before = transfers@;
                let Transfers { model, legacy, pending, index, ledger, outcome } = transfers;
                let mut ledger = ledger;
                let mut outcome = outcome;
                let ghost counted = outcome@;
                let key = sync::ledger_key(&pending[index], options.keep_dirs);
                match result {
                    Ok(written) => {
                        let event = finished_json(key.as_str(), written);
                        ledger.record(key.as_str(), written, Some(model.clone()));
                        outcome.bytes_written = outcome.bytes_written + written;
                        outcome.downloaded.push(key);
                        assert(outcome.downloaded.deep_view() =~= counted.downloaded.push(key@));
                        let transfers = Transfers { model, legacy, pending, index, ledger, outcome };
                        assert(transfers@ =~= arrived(options@, before, written));
                        (sync::one_event(event), Step::More(Pull::Saving(transfers)))
                    },
                    Err(error) => {
                        let message = error.message();
                        let event = sync::one_event(failed_json(key.as_str(), message.as_str()));
                        assert(event.deep_view() == seq![failed_event(key@, error@)]);
                        outcome.failed.push(Failure { photo: key, error: message });
                        assert(outcome.failed.deep_view() =~= counted.failed.push(
                            FailureView { photo: key@, error: message@ },
                        ));
                        assert(outcome@ =~= passed_over(options@, before, error@).outcome);
                        proof {
                            assert(index < pending.len());
                        }
                        let (events, step) = go_on(
                            options,
                            model,
                            legacy,
                            pending,
                            index + 1,
                            ledger,
                            outcome,
                        );
                        (sync::followed_by(event, events), step)
                    },
                }
            },
            (Pull::Saving(transfers), PullReply::Saved(result)) => {
                proof {
                    use_type_invariant(&transfers);
                }
                let Transfers { model, legacy, pending, index, ledger, outcome } = transfers;
                proof {
                    assert(index < pending.len());
                }
                let (events, step) = go_on(
                    options,
                    model,
                    legacy,
                    pending,
                    index + 1,
                    ledger,
                    outcome,
                );
                match result {
                    Ok(_) => (events, step),
                    Err(error) => {
                        let event = sync::one_event(save_failed_json(error.message().as_str()));
                        assert(event.deep_view() == seq![save_failed_event(error@)]);
                        (sync::followed_by(event, events), step)
                    },
                }
            },
            (state, _) => (sync::no_events(), Step::More(state)),
        }
    }
}

/// Whether a file is one of those chosen that are not on disk.
pub open spec fn is_off_disk(chosen: Seq<PhotoView>, on_disk: Seq<bool>, photo: PhotoView) -> bool {
    exists|at: int| 0 <= at < chosen.len() && #[trigger] chosen[at] == photo && !on_disk[at]
}

/// Whether a key is that of one of the files chosen that are on disk.
pub open spec fn is_key_on_disk(
    chosen: Seq<PhotoView>,
    on_disk: Seq<bool>,
    key: Seq<char>,
    keep_dirs: bool,
) -> bool {
    exists|at: int|
        0 <= at < chosen.len() && sync::key_of(#[trigger] chosen[at], keep_dirs) == key
            && on_disk[at]
}

/// Everything chosen is either skipped or pending, and nothing is both: what is
/// skipped is on disk or in the ledger, what is pending is in neither.
pub proof fn lemma_the_plan_is_a_partition(
    chosen: Seq<PhotoView>,
    on_disk: Seq<bool>,
    ledger: Map<Seq<char>, EntryView>,
    keep_dirs: bool,
)
    ensures
        skipped_of(chosen, on_disk, ledger, keep_dirs).to_multiset().add(
            keys(pending_of(chosen, on_disk, ledger, keep_dirs), keep_dirs).to_multiset(),
        ) == keys(chosen, keep_dirs).to_multiset(),
        skipped_of(chosen, on_disk, ledger, keep_dirs).len() + pending_of(
            chosen,
            on_disk,
            ledger,
            keep_dirs,
        ).len() == chosen.len(),
        forall|i: int|
            0 <= i < pending_of(chosen, on_disk, ledger, keep_dirs).len()
                ==> !ledger.contains_key(
                sync::key_of(
                    #[trigger] pending_of(chosen, on_disk, ledger, keep_dirs)[i],
                    keep_dirs,
                ),
            ) && is_off_disk(
                chosen,
                on_disk,
                pending_of(chosen, on_disk, ledger, keep_dirs)[i],
            ),
        forall|j: int|
            0 <= j < skipped_of(chosen, on_disk, ledger, keep_dirs).len() ==> ledger.contains_key(
                #[trigger] skipped_of(chosen, on_disk, ledger, keep_dirs)[j],
            ) || is_key_on_disk(
                chosen,
                on_disk,
                skipped_of(chosen, on_disk, ledger, keep_dirs)[j],
                keep_dirs,
            ),
    decreases chosen.len(),
{
    broadcast use vstd::seq_lib::group_to_multiset_ensures;

    let all = keys(chosen, keep_dirs);
    let pending = pending_of(chosen, on_disk, ledger, keep_dirs);
    let skipped = skipped_of(chosen, on_disk, ledger, keep_dirs);
    if chosen.len() == 0 {
        assert(all =~= Seq::empty());
        assert(keys(pending, keep_dirs) =~= Seq::empty());
        assert(skipped.to_multiset().add(keys(pending, keep_dirs).to_multiset())
            =~= all.to_multiset());
    } else {
        let rest = chosen.drop_last();
        lemma_the_plan_is_a_partition(rest, on_disk, ledger, keep_dirs);
        let key = sync::key_of(chosen.last(), keep_dirs);
        let pending_before = pending_of(rest, on_disk, ledger, keep_dirs);
        let skipped_before = skipped_of(rest, on_disk, ledger, keep_dirs);
        assert(all =~= keys(rest, keep_dirs).push(key));
        if on_disk[chosen.len() - 1] || ledger.contains_key(key) {
            assert(skipped == skipped_before.push(key));
            assert(pending == pending_before);
        } else {
            assert(keys(pending, keep_dirs) =~= keys(pending_before, keep_dirs).push(key));
            assert(skipped == skipped_before);
        }
        assert(skipped.to_multiset().add(keys(pending, keep_dirs).to_multiset())
            =~= all.to_multiset());
        let last = chosen.len() - 1;
        assert forall|i: int| 0 <= i < pending.len() implies is_off_disk(
            chosen,
            on_disk,
            #[trigger] pending[i],
        ) by {
            if i < pending_before.len() {
                assert(pending[i] == pending_before[i]);
                let at = choose|at: int|
                    0 <= at < rest.len() && #[trigger] rest[at] == pending[i] && !on_disk[at];
                assert(chosen[at] == pending[i]);
            } else {
                assert(chosen[last] == pending[i]);
            }
        }
        assert forall|j: int| 0 <= j < skipped.len() implies ledger.contains_key(
            #[trigger] skipped[j],
        ) || is_key_on_disk(chosen, on_disk, skipped[j], keep_dirs) by {
            if j < skipped_before.len() {
                assert(skipped[j] == skipped_before[j]);
                if is_key_on_disk(rest, on_disk, skipped[j], keep_dirs) {
                    let at = choose|at: int|
                        0 <= at < rest.len() && sync::key_of(#[trigger] rest[at], keep_dirs)
                            == skipped[j] && on_disk[at];
                    assert(chosen[at] == rest[at]);
                }
            } else {
                assert(sync::key_of(chosen[last], keep_dirs) == skipped[j]);
            }
        }
    }
}

/// Where every file chosen is on disk or in the ledger, a pull downloads
/// nothing and skips them all.
pub proof fn lemma_a_second_pull_downloads_nothing(
    options: OptionsView,
    props: PropsView,
    chosen: Seq<PhotoView>,
    entries: Option<Seq<(Seq<char>, EntryView)>>,
    on_disk: Seq<bool>,
)
    requires
        on_disk.len() == chosen.len(),
        forall|i: int|
            0 <= i < chosen.len() ==> on_disk[i] || ledger_of(entries).contains_key(
                sync::key_of(#[trigger] chosen[i], options.keep_dirs),
            ),
    ensures
        pull_next(
            options,
            PullView::Inspecting { props, chosen },
            PullReplyView::Inspected { entries, on_disk },
        ).1 matches StepView::Done(Ok(outcome)) && outcome.downloaded.len() == 0
            && outcome.failed.len() == 0 && outcome.skipped == keys(chosen, options.keep_dirs)
            && outcome.bytes_written == 0,
{
    lemma_nothing_pending(chosen, on_disk, ledger_of(entries), options.keep_dirs);
}

proof fn lemma_nothing_pending(
    chosen: Seq<PhotoView>,
    on_disk: Seq<bool>,
    ledger: Map<Seq<char>, EntryView>,
    keep_dirs: bool,
)
    requires
        forall|i: int|
            0 <= i < chosen.len() ==> on_disk[i] || ledger.contains_key(
                sync::key_of(#[trigger] chosen[i], keep_dirs),
            ),
    ensures
        pending_of(chosen, on_disk, ledger, keep_dirs).len() == 0,
        pending_of(chosen, on_disk, ledger, keep_dirs) == Seq::<PhotoView>::empty(),
        skipped_of(chosen, on_disk, ledger, keep_dirs) == keys(chosen, keep_dirs),
    decreases chosen.len(),
{
    if chosen.len() == 0 {
        assert(keys(chosen, keep_dirs) =~= Seq::empty());
    } else {
        let rest = chosen.drop_last();
        assert forall|i: int| 0 <= i < rest.len() implies on_disk[i] || ledger.contains_key(
            sync::key_of(#[trigger] rest[i], keep_dirs),
        ) by {
            assert(rest[i] == chosen[i]);
        }
        lemma_nothing_pending(rest, on_disk, ledger, keep_dirs);
        assert(chosen[chosen.len() - 1] == chosen.last());
        assert(keys(chosen, keep_dirs) =~= keys(rest, keep_dirs).push(
            sync::key_of(chosen.last(), keep_dirs),
        ));
    }
}

/// A dry run never gets as far as a download or a write of the ledger.
pub proof fn lemma_a_dry_run_writes_nothing(
    options: OptionsView,
    state: PullView,
    reply: PullReplyView,
)
    requires
        options.dry_run,
        !(state is Downloading) && !(state is Saving),
        pull_answered(state, reply),
    ensures
        !(pull_work(options, state) is Download) && !(pull_work(options, state) is SaveLedger),
        match pull_next(options, state, reply).1 {
            StepView::More(next) => !(next is Downloading) && !(next is Saving),
            StepView::Done(Ok(outcome)) => outcome.bytes_written == 0 && outcome.dry_run,
            StepView::Done(Err(_)) => true,
        },
{
}

/// The keys of the files that failed.
pub open spec fn failures(outcome: OutcomeView) -> Seq<Seq<char>> {
    outcome.failed.map_values(|failure: FailureView| failure.photo)
}

/// Whether every file tried so far is counted once, as downloaded or as failed.
pub open spec fn accounted(options: OptionsView, t: TransfersView, tried: int) -> bool {
    &&& 0 <= tried <= t.pending.len()
    &&& t.outcome.downloaded.to_multiset().add(failures(t.outcome).to_multiset()) == keys(
        t.pending.take(tried),
        options.keep_dirs,
    ).to_multiset()
}

/// Whether a state of pulling has its accounts in order.
pub open spec fn in_order(options: OptionsView, state: PullView) -> bool {
    match state {
        PullView::Downloading(t) => t.index < t.pending.len() && accounted(options, t, t.index),
        PullView::Saving(t) => t.index < t.pending.len() && accounted(options, t, t.index + 1),
        _ => true,
    }
}

proof fn lemma_one_more_key(photos: Seq<PhotoView>, at: int, keep_dirs: bool)
    requires
        0 <= at < photos.len(),
    ensures
        keys(photos.take(at + 1), keep_dirs) == keys(photos.take(at), keep_dirs).push(
            sync::key_of(photos[at], keep_dirs),
        ),
{
    assert(keys(photos.take(at + 1), keep_dirs) =~= keys(photos.take(at), keep_dirs).push(
        sync::key_of(photos[at], keep_dirs),
    ));
}

/// Each file pending ends up as downloaded or as failed, and as no more than one
/// of them: one bad file does not abort the rest.
pub proof fn lemma_every_file_is_accounted_for(
    options: OptionsView,
    state: PullView,
    reply: PullReplyView,
)
    requires
        in_order(options, state),
        pull_answered(state, reply),
    ensures
        match pull_next(options, state, reply).1 {
            StepView::More(next) => in_order(options, next),
            StepView::Done(Ok(outcome)) => match state {
                PullView::Downloading(t) => outcome.downloaded.to_multiset().add(
                    failures(outcome).to_multiset(),
                ) == keys(t.pending, options.keep_dirs).to_multiset(),
                PullView::Saving(t) => outcome.downloaded.to_multiset().add(
                    failures(outcome).to_multiset(),
                ) == keys(t.pending, options.keep_dirs).to_multiset(),
                _ => true,
            },
            StepView::Done(Err(_)) => !(state is Downloading) && !(state is Saving),
        },
{
    broadcast use vstd::seq_lib::group_to_multiset_ensures;

    match (state, reply) {
        (PullView::Inspecting { props, chosen }, PullReplyView::Inspected { entries, on_disk }) => {
            let ledger = ledger_of(entries);
            let pending = pending_of(chosen, on_disk, ledger, options.keep_dirs);
            let outcome = planned(
                options,
                props,
                skipped_of(chosen, on_disk, ledger, options.keep_dirs),
            );
            assert(keys(pending.take(0), options.keep_dirs) =~= Seq::empty());
            assert(failures(outcome) =~= Seq::empty());
            assert(outcome.downloaded.to_multiset().add(failures(outcome).to_multiset())
                =~= Seq::<Seq<char>>::empty().to_multiset());
        },
        (PullView::Downloading(t), PullReplyView::Downloaded(result)) => {
            let key = sync::key_of(t.pending[t.index], options.keep_dirs);
            lemma_one_more_key(t.pending, t.index, options.keep_dirs);
            let tried = keys(t.pending.take(t.index), options.keep_dirs);
            match result {
                Ok(written) => {
                    let after = arrived(options, t, written).outcome;
                    assert(failures(after) =~= failures(t.outcome));
                    assert(after.downloaded.to_multiset().add(failures(after).to_multiset())
                        =~= tried.push(key).to_multiset());
                },
                Err(error) => {
                    let after = passed_over(options, t, error).outcome;
                    assert(failures(after) =~= failures(t.outcome).push(key));
                    assert(after.downloaded.to_multiset().add(failures(after).to_multiset())
                        =~= tried.push(key).to_multiset());
                    assert(t.pending.take(t.pending.len() as int) =~= t.pending);
                },
            }
        },
        (PullView::Saving(t), _) => {
            assert(t.pending.take(t.pending.len() as int) =~= t.pending);
        },
        _ => {},
    }
}

/// A file that arrived is recorded in the ledger in the same step, with its size and
/// its camera, and nothing else in it changes.
pub proof fn lemma_what_arrives_is_recorded(
    options: OptionsView,
    t: TransfersView,
    written: u64,
    other: Seq<char>,
)
    ensures
        ({
            let next = pull_next(
                options,
                PullView::Downloading(t),
                PullReplyView::Downloaded(Ok(written)),
            ).1;
            &&& next matches StepView::More(PullView::Saving(after))
            &&& next->More_0->Saving_0.ledger.contains_key(
                sync::key_of(t.pending[t.index], options.keep_dirs),
            )
            &&& next->More_0->Saving_0.ledger[sync::key_of(t.pending[t.index], options.keep_dirs)]
                == (EntryView { size: written, camera: Some(t.model) })
            &&& t.ledger.contains_key(other) ==> next->More_0->Saving_0.ledger.contains_key(other)
            &&& other != sync::key_of(t.pending[t.index], options.keep_dirs)
                ==> next->More_0->Saving_0.ledger.contains_key(other) == t.ledger.contains_key(
                other,
            ) && next->More_0->Saving_0.ledger[other] == t.ledger[other]
        }),
{
}

/// The plan keeps the listing's order: what is pending and what is skipped of its
/// beginning comes first, whatever follows.
pub proof fn lemma_the_plan_keeps_the_order(
    chosen: Seq<PhotoView>,
    on_disk: Seq<bool>,
    ledger: Map<Seq<char>, EntryView>,
    keep_dirs: bool,
    k: int,
)
    requires
        0 <= k <= chosen.len(),
    ensures
        pending_of(chosen.take(k), on_disk, ledger, keep_dirs).is_prefix_of(
            pending_of(chosen, on_disk, ledger, keep_dirs),
        ),
        skipped_of(chosen.take(k), on_disk, ledger, keep_dirs).is_prefix_of(
            skipped_of(chosen, on_disk, ledger, keep_dirs),
        ),
    decreases chosen.len(),
{
    if k == chosen.len() {
        assert(chosen.take(k) =~= chosen);
    } else {
        lemma_the_plan_keeps_the_order(chosen.drop_last(), on_disk, ledger, keep_dirs, k);
        assert(chosen.drop_last().take(k) =~= chosen.take(k));
    }
}

/// Whether a file is pending is decided by what is on disk and in the ledger, and by
/// nothing else: one that is in neither is downloaded, and one that is in either is
/// skipped under its key.
pub proof fn lemma_what_is_pending(
    chosen: Seq<PhotoView>,
    on_disk: Seq<bool>,
    ledger: Map<Seq<char>, EntryView>,
    keep_dirs: bool,
    at: int,
)
    requires
        0 <= at < chosen.len(),
    ensures
        !on_disk[at] && !ledger.contains_key(sync::key_of(chosen[at], keep_dirs)) ==> pending_of(
            chosen,
            on_disk,
            ledger,
            keep_dirs,
        ).contains(chosen[at]),
        on_disk[at] || ledger.contains_key(sync::key_of(chosen[at], keep_dirs)) ==> skipped_of(
            chosen,
            on_disk,
            ledger,
            keep_dirs,
        ).contains(sync::key_of(chosen[at], keep_dirs)),
    decreases chosen.len(),
{
    let pending = pending_of(chosen, on_disk, ledger, keep_dirs);
    let skipped = skipped_of(chosen, on_disk, ledger, keep_dirs);
    if at < chosen.len() - 1 {
        let rest = chosen.drop_last();
        lemma_what_is_pending(rest, on_disk, ledger, keep_dirs, at);
        let before = pending_of(rest, on_disk, ledger, keep_dirs);
        let over = skipped_of(rest, on_disk, ledger, keep_dirs);
        let key = sync::key_of(chosen[at], keep_dirs);
        if before.contains(chosen[at]) {
            let j = before.index_of(chosen[at]);
            assert(pending[j] == chosen[at]);
        }
        if over.contains(key) {
            let j = over.index_of(key);
            assert(skipped[j] == key);
        }
    } else if on_disk[at] || ledger.contains_key(sync::key_of(chosen[at], keep_dirs)) {
        assert(skipped.last() == sync::key_of(chosen[at], keep_dirs));
    } else {
        assert(pending.last() == chosen[at]);
    }
}

} // verus!
