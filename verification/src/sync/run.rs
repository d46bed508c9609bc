//! A full sync, from the empty destination to the camera put back to sleep.
//!
//! A dry run says what a sync would do: it downloads nothing, and leaves the
//! destination as it is, there or not.

use crate::ble;
use crate::ble::{DiscoveredCamera, DiscoveredView, GattOp, GattReply, GattReplyView};
use crate::error;
use crate::error::{Error, ErrorView, Result, ResultView};
use crate::json;
use crate::json::{Json, JsonView};
use crate::procedure::{Step, StepView};
use crate::protocol as p;
use crate::sync;
use crate::sync::bring_up;
use crate::sync::bring_up::{BleHandoff, BringUp, BringUpView, HandoffView};
use crate::sync::wifi;
use crate::sync::wifi::{
    WifiPhase, WifiPhaseView, WifiReply, WifiReplyView, WifiWork, WifiWorkView,
};
use crate::sync::{Options, OptionsView, Outcome, OutcomeView};
use vstd::prelude::*;

verus! {

/// A full sync, told apart by what is being waited for.
#[derive(Debug)]
pub enum Run {
    CreatingDest,
    Connecting,
    BringingUp(BringUp),
    Disconnecting { raised: Result<BleHandoff> },
    PickingBackend { handoff: Option<BleHandoff> },
    Wifi { handoff: Option<BleHandoff>, phase: WifiPhase },
    Reconnecting { woken: BleHandoff, result: Result<Outcome> },
    PoweringOff { woken: BleHandoff, result: Result<Outcome> },
    HangingUp { woken: BleHandoff, result: Result<Outcome>, switched: Result<()> },
}

#[verifier::ext_equal]
pub enum RunView {
    CreatingDest,
    Connecting,
    BringingUp(BringUpView),
    Disconnecting { raised: ResultView<HandoffView> },
    PickingBackend { handoff: Option<HandoffView> },
    Wifi { handoff: Option<HandoffView>, phase: WifiPhaseView },
    Reconnecting { woken: HandoffView, result: ResultView<OutcomeView> },
    PoweringOff { woken: HandoffView, result: ResultView<OutcomeView> },
    HangingUp { woken: HandoffView, result: ResultView<OutcomeView>, switched: ResultView<()> },
}

impl View for Run {
    type V = RunView;

    open spec fn view(&self) -> RunView {
        match *self {
            Run::CreatingDest => RunView::CreatingDest,
            Run::Connecting => RunView::Connecting,
            Run::BringingUp(bring_up) => RunView::BringingUp(bring_up@),
            Run::Disconnecting { raised } => {
                RunView::Disconnecting { raised: error::seen(raised) }
            },
            Run::PickingBackend { handoff } => {
                RunView::PickingBackend { handoff: handoff.deep_view() }
            },
            Run::Wifi { handoff, phase } => {
                RunView::Wifi { handoff: handoff.deep_view(), phase: phase@ }
            },
            Run::Reconnecting { woken, result } => {
                RunView::Reconnecting { woken: woken@, result: error::seen(result) }
            },
            Run::PoweringOff { woken, result } => {
                RunView::PoweringOff { woken: woken@, result: error::seen(result) }
            },
            Run::HangingUp { woken, result, switched } => {
                RunView::HangingUp {
                    woken: woken@,
                    result: error::seen(result),
                    switched: error::seen(switched),
                }
            },
        }
    }
}

impl DeepView for Run {
    type V = RunView;

    open spec fn deep_view(&self) -> RunView {
        self@
    }
}

/// What a sync asks to be done.
#[derive(Debug)]
pub enum RunWork {
    CreateFolder(String),
    /// Scan for the camera and connect to it over Bluetooth.
    Connect { address: Option<String>, timeout: u64 },
    Gatt(GattOp),
    Disconnect,
    /// Pick a Wi-Fi backend, this one where one is named.
    PickBackend(Option<String>),
    Wifi(WifiWork),
}

#[verifier::ext_equal]
pub enum RunWorkView {
    CreateFolder(Seq<char>),
    Connect { address: Option<Seq<char>>, timeout: u64 },
    Gatt(GattOp),
    Disconnect,
    PickBackend(Option<Seq<char>>),
    Wifi(WifiWorkView),
}

impl View for RunWork {
    type V = RunWorkView;

    open spec fn view(&self) -> RunWorkView {
        match *self {
            RunWork::CreateFolder(path) => RunWorkView::CreateFolder(path@),
            RunWork::Connect { address, timeout } => {
                RunWorkView::Connect { address: address.deep_view(), timeout }
            },
            RunWork::Gatt(op) => RunWorkView::Gatt(op),
            RunWork::Disconnect => RunWorkView::Disconnect,
            RunWork::PickBackend(name) => RunWorkView::PickBackend(name.deep_view()),
            RunWork::Wifi(work) => RunWorkView::Wifi(work@),
        }
    }
}

/// What came of it.
#[derive(Debug)]
pub enum RunReply {
    /// The folder is there, or why it is not.
    Folder(Option<String>),
    Connected(Result<DiscoveredCamera>),
    Gatt(GattReply),
    Disconnected,
    /// The backend's name, and whether it asks the operator to act.
    Backend(Result<(String, bool)>),
    Wifi(WifiReply),
}

#[verifier::ext_equal]
pub enum RunReplyView {
    Folder(Option<Seq<char>>),
    Connected(ResultView<DiscoveredView>),
    Gatt(GattReplyView),
    Disconnected,
    Backend(ResultView<(Seq<char>, bool)>),
    Wifi(WifiReplyView),
}

impl View for RunReply {
    type V = RunReplyView;

    open spec fn view(&self) -> RunReplyView {
        match *self {
            RunReply::Folder(failure) => RunReplyView::Folder(failure.deep_view()),
            RunReply::Connected(result) => RunReplyView::Connected(error::seen(result)),
            RunReply::Gatt(reply) => RunReplyView::Gatt(reply@),
            RunReply::Disconnected => RunReplyView::Disconnected,
            RunReply::Backend(result) => RunReplyView::Backend(error::seen(result)),
            RunReply::Wifi(reply) => RunReplyView::Wifi(reply@),
        }
    }
}

/// What each state of a sync asks for.
pub open spec fn run_work(options: OptionsView, state: RunView) -> RunWorkView {
    match state {
        RunView::CreatingDest => RunWorkView::CreateFolder(options.dest),
        RunView::Connecting => RunWorkView::Connect {
            address: options.address,
            timeout: options.scan_timeout,
        },
        RunView::BringingUp(state) => RunWorkView::Gatt(bring_up::bring_up_op(options, state)),
        RunView::Disconnecting { .. } => RunWorkView::Disconnect,
        RunView::PickingBackend { .. } => RunWorkView::PickBackend(options.wifi_backend),
        RunView::Wifi { handoff, phase } => RunWorkView::Wifi(
            wifi::wifi_work(options, handoff, phase),
        ),
        RunView::Reconnecting { .. } => RunWorkView::Connect {
            address: options.address,
            timeout: options.scan_timeout,
        },
        RunView::PoweringOff { .. } => RunWorkView::Gatt(
            GattOp::Write(p::CHAR_CAMERA_POWER, 0),
        ),
        RunView::HangingUp { .. } => RunWorkView::Disconnect,
    }
}

/// Whether a reply is one that the state can have.
pub open spec fn run_answered(options: OptionsView, state: RunView, reply: RunReplyView) -> bool {
    match state {
        RunView::CreatingDest => reply is Folder,
        RunView::Connecting => reply is Connected,
        RunView::BringingUp(state) => reply matches RunReplyView::Gatt(reply) && ble::replies_to(
            bring_up::bring_up_op(options, state),
            reply,
        ),
        RunView::Disconnecting { .. } => reply is Disconnected,
        RunView::PickingBackend { .. } => reply is Backend,
        RunView::Wifi { phase, .. } => reply matches RunReplyView::Wifi(reply)
            && wifi::wifi_answered(phase, reply),
        RunView::Reconnecting { .. } => reply is Connected,
        RunView::PoweringOff { .. } => reply matches RunReplyView::Gatt(reply) && reply is Written,
        RunView::HangingUp { .. } => reply is Disconnected,
    }
}

pub open spec fn scan_event(address: Option<Seq<char>>) -> JsonView {
    sync::event("ble.scan"@, seq![("address"@, json::optional_text_view(address))])
}

pub open spec fn skipped_event() -> JsonView {
    sync::event("ble.skipped"@, seq![])
}

pub open spec fn found_event(camera: DiscoveredView) -> JsonView {
    sync::event(
        "ble.found"@,
        seq![
            ("address"@, JsonView::Text(camera.address)),
            ("name"@, json::optional_text_view(camera.name)),
        ],
    )
}

pub open spec fn disconnected_event() -> JsonView {
    sync::event("ble.disconnected"@, seq![])
}

pub open spec fn powered_off_event() -> JsonView {
    sync::event("ble.powered_off"@, seq![])
}

pub open spec fn power_off_failed_event(error: ErrorView) -> JsonView {
    sync::event(
        "ble.power_off_failed"@,
        seq![("error"@, JsonView::Text(error::error_message(error)))],
    )
}

/// What is reported of an outcome: what HTTP did not say of the camera,
/// Bluetooth may have.
pub open spec fn completed(outcome: OutcomeView, handoff: Option<HandoffView>) -> OutcomeView {
    match handoff {
        Some(handoff) => OutcomeView {
            model: if outcome.model is Some {
                outcome.model
            } else {
                handoff.model
            },
            battery: if outcome.battery is Some {
                outcome.battery
            } else {
                handoff.battery
            },
            ..outcome
        },
        None => outcome,
    }
}

/// The end of a sync.
pub open spec fn ended(handoff: Option<HandoffView>, result: ResultView<OutcomeView>) -> (
    Seq<JsonView>,
    StepView<RunView, OutcomeView>,
) {
    match result {
        Ok(outcome) => (
            seq![sync::done_event(completed(outcome, handoff))],
            StepView::Done(Ok(completed(outcome, handoff))),
        ),
        Err(error) => (seq![], StepView::Done(Err(error))),
    }
}

/// Whether the camera may be switched off: only one that gr3sync woke, only
/// where that is asked for, and not on a dry run.
pub open spec fn may_power_off(options: OptionsView, handoff: HandoffView) -> bool {
    handoff.woke_it && options.power_off && !options.dry_run
}

/// After the Wi-Fi phase: the camera is put back to sleep where it may be.
pub open spec fn settled(
    options: OptionsView,
    handoff: Option<HandoffView>,
    result: ResultView<OutcomeView>,
) -> (Seq<JsonView>, StepView<RunView, OutcomeView>) {
    match handoff {
        Some(woken) => if may_power_off(options, woken) {
            (seq![], StepView::More(RunView::Reconnecting { woken, result }))
        } else {
            ended(handoff, result)
        },
        None => ended(handoff, result),
    }
}

/// How a sync sets out once there is a destination, or none is needed.
pub open spec fn set_out(options: OptionsView) -> (Seq<JsonView>, RunView) {
    if options.use_ble {
        (seq![scan_event(options.address)], RunView::Connecting)
    } else {
        (seq![skipped_event()], RunView::PickingBackend { handoff: None })
    }
}

/// How a sync begins, and what is reported: with its destination, which a dry run
/// has no use for.
pub open spec fn begun(options: OptionsView) -> (Seq<JsonView>, RunView) {
    if options.dry_run {
        set_out(options)
    } else {
        (seq![], RunView::CreatingDest)
    }
}

/// How a sync goes on, and what is reported.
pub open spec fn run_next(options: OptionsView, state: RunView, reply: RunReplyView) -> (
    Seq<JsonView>,
    StepView<RunView, OutcomeView>,
) {
    match (state, reply) {
        (RunView::CreatingDest, RunReplyView::Folder(failure)) => match failure {
            Some(reason) => (
                seq![],
                StepView::Done(
                    Err(ErrorView::Io { context: "creating "@ + options.dest, source: reason }),
                ),
            ),
            None => (set_out(options).0, StepView::More(set_out(options).1)),
        },
        (RunView::Connecting, RunReplyView::Connected(result)) => match result {
            Ok(camera) => (
                seq![found_event(camera)],
                StepView::More(RunView::BringingUp(BringUpView::Model)),
            ),
            Err(error) => (seq![], StepView::Done(Err(error))),
        },
        (RunView::BringingUp(state), RunReplyView::Gatt(reply)) => {
            let (events, step) = bring_up::bring_up_next(options, state, reply);
            match step {
                StepView::More(state) => (events, StepView::More(RunView::BringingUp(state))),
                StepView::Done(result) => (
                    events,
                    StepView::More(RunView::Disconnecting { raised: result }),
                ),
            }
        },
        (RunView::Disconnecting { raised }, _) => match raised {
            Ok(handoff) => (
                seq![disconnected_event()],
                StepView::More(RunView::PickingBackend { handoff: Some(handoff) }),
            ),
            Err(error) => (seq![disconnected_event()], StepView::Done(Err(error))),
        },
        (RunView::PickingBackend { handoff }, RunReplyView::Backend(result)) => match result {
            Ok((name, interactive)) => (
                seq![wifi::backend_event(name, interactive)],
                StepView::More(RunView::Wifi { handoff, phase: WifiPhaseView::Current }),
            ),
            Err(error) => settled(options, handoff, Err(error)),
        },
        (RunView::Wifi { handoff, phase }, RunReplyView::Wifi(reply)) => {
            let (events, step) = wifi::wifi_next(options, handoff, phase, reply);
            match step {
                StepView::More(phase) => (
                    events,
                    StepView::More(RunView::Wifi { handoff, phase }),
                ),
                StepView::Done(result) => {
                    let after = settled(options, handoff, result);
                    (events + after.0, after.1)
                },
            }
        },
        (RunView::Reconnecting { woken, result }, RunReplyView::Connected(connected)) => {
            match connected {
                Ok(_) => (seq![], StepView::More(RunView::PoweringOff { woken, result })),
                Err(error) => {
                    let end = ended(Some(woken), result);
                    (seq![power_off_failed_event(error)] + end.0, end.1)
                },
            }
        },
        (
            RunView::PoweringOff { woken, result },
            RunReplyView::Gatt(GattReplyView::Written(switched)),
        ) => (seq![], StepView::More(RunView::HangingUp { woken, result, switched })),
        (RunView::HangingUp { woken, result, switched }, _) => {
            let end = ended(Some(woken), result);
            match switched {
                Ok(_) => (seq![powered_off_event()] + end.0, end.1),
                Err(error) => (seq![power_off_failed_event(error)] + end.0, end.1),
            }
        },
        _ => (seq![], StepView::More(state)),
    }
}

fn bare_event(name: &str) -> (events: Vec<Json>)
    ensures
        events.deep_view() == seq![sync::event(name@, seq![])],
{
    let members: Vec<(String, Json)> = Vec::new();
    assert(members.deep_view() =~= Seq::empty());
    sync::one_event(sync::event_json(name, members))
}

fn power_off_failed(error: &Error) -> (events: Vec<Json>)
    ensures
        events.deep_view() == seq![power_off_failed_event(error@)],
{
    let members: Vec<(String, Json)> = vec![
        json::named("error", json::of_text(error.message().as_str())),
    ];
    assert(members.deep_view() =~= seq![
        ("error"@, JsonView::Text(error::error_message(error@))),
    ]);
    sync::one_event(sync::event_json("ble.power_off_failed", members))
}

fn end(handoff: Option<BleHandoff>, result: Result<Outcome>) -> (next: (
    Vec<Json>,
    Step<Run, Outcome>,
))
    ensures
        (next.0.deep_view(), next.1@) == ended(handoff.deep_view(), error::seen(result)),
{
    match result {
        Ok(outcome) => {
            let mut outcome = outcome;
            match handoff {
                Some(handoff) => {
                    if outcome.model.is_none() {
                        outcome.model = handoff.model;
                    }
                    if outcome.battery.is_none() {
                        outcome.battery = handoff.battery;
                    }
                },
                None => {},
            }
            (sync::one_event(outcome.done_json()), Step::Done(Ok(outcome)))
        },
        Err(error) => (sync::no_events(), Step::Done(Err(error))),
    }
}

fn settle(options: &Options, handoff: Option<BleHandoff>, result: Result<Outcome>) -> (next: (
    Vec<Json>,
    Step<Run, Outcome>,
))
    ensures
        (next.0.deep_view(), next.1@) == settled(
            options@,
            handoff.deep_view(),
            error::seen(result),
        ),
{
    match handoff {
        Some(handoff) => {
            if handoff.woke_it && options.power_off && !options.dry_run {
                (sync::no_events(), Step::More(Run::Reconnecting { woken: handoff, result }))
            } else {
                end(Some(handoff), result)
            }
        },
        None => end(None, result),
    }
}

fn first_steps(options: &Options) -> (start: (Vec<Json>, Run))
    ensures
        (start.0.deep_view(), start.1@) == set_out(options@),
{
    if options.use_ble {
        let members: Vec<(String, Json)> = vec![
            json::named("address", json::of_optional_text(&options.address)),
        ];
        assert(members.deep_view() =~= seq![
            ("address"@, json::optional_text_view(options@.address)),
        ]);
        let event = sync::event_json("ble.scan", members);
        (sync::one_event(event), Run::Connecting)
    } else {
        (bare_event("ble.skipped"), Run::PickingBackend { handoff: None })
    }
}

impl Run {
    /// Set out on a sync.
    pub fn start(options: &Options) -> (start: (Vec<Json>, Run))
        ensures
            (start.0.deep_view(), start.1@) == begun(options@),
    {
        if options.dry_run {
            first_steps(options)
        } else {
            (sync::no_events(), Run::CreatingDest)
        }
    }

    /// What to do.
    pub fn work(&self, options: &Options) -> (work: RunWork)
        ensures
            work@ == run_work(options@, self@),
    {
        match self {
            Run::CreatingDest => RunWork::CreateFolder(options.dest.clone()),
            Run::Connecting => RunWork::Connect {
                address: options.address.clone(),
                timeout: options.scan_timeout,
            },
            Run::BringingUp(state) => RunWork::Gatt(state.op(options)),
            Run::Disconnecting { .. } => RunWork::Disconnect,
            Run::PickingBackend { .. } => RunWork::PickBackend(options.wifi_backend.clone()),
            Run::Wifi { handoff, phase } => RunWork::Wifi(phase.work(options, handoff)),
            Run::Reconnecting { .. } => RunWork::Connect {
                address: options.address.clone(),
                timeout: options.scan_timeout,
            },
            Run::PoweringOff { .. } => RunWork::Gatt(GattOp::Write(p::CHAR_CAMERA_POWER, 0)),
            Run::HangingUp { .. } => RunWork::Disconnect,
        }
    }

    /// Whether a reply is one that the state can have.
    pub fn accepts(&self, options: &Options, reply: &RunReply) -> (yes: bool)
        ensures
            yes == run_answered(options@, self@, reply@),
    {
        match (self, reply) {
            (Run::CreatingDest, RunReply::Folder(_)) => true,
            (Run::Connecting, RunReply::Connected(_)) => true,
            (Run::BringingUp(state), RunReply::Gatt(reply)) => ble::fits(state.op(options), reply),
            (Run::Disconnecting { .. }, RunReply::Disconnected) => true,
            (Run::PickingBackend { .. }, RunReply::Backend(_)) => true,
            (Run::Wifi { phase, .. }, RunReply::Wifi(reply)) => phase.accepts(reply),
            (Run::Reconnecting { .. }, RunReply::Connected(_)) => true,
            (Run::PoweringOff { .. }, RunReply::Gatt(GattReply::Written(_))) => true,
            (Run::HangingUp { .. }, RunReply::Disconnected) => true,
            _ => false,
        }
    }

    /// Go on from what came of it, reporting what happened.
    pub fn next(self, options: &Options, reply: RunReply) -> (next: (Vec<Json>, Step<Run, Outcome>))
        requires
            run_answered(options@, self@, reply@),
        ensures
            (next.0.deep_view(), next.1@) == run_next(options@, self@, reply@),
    {
        match (self, reply) {
            (Run::CreatingDest, RunReply::Folder(failure)) => match failure {
                Some(reason) => {
                    let mut context = "creating ".to_owned();
                    context.append(options.dest.as_str());
                    (
                        sync::no_events(),
                        Step::Done(Err(Error::io(context.as_str(), reason.as_str()))),
                    )
                },
                None => {
                    let (events, run) = first_steps(options);
                    (events, Step::More(run))
                },
            },
            (Run::Connecting, RunReply::Connected(result)) => match result {
                Ok(camera) => {
                    let members: Vec<(String, Json)> = vec![
                        json::named("address", json::of_text(camera.address.as_str())),
                        json::named("name", json::of_optional_text(&camera.name)),
                    ];
                    assert(members.deep_view() =~= seq![
                        ("address"@, JsonView::Text(camera@.address)),
                        ("name"@, json::optional_text_view(camera@.name)),
                    ]);
                    let event = sync::event_json("ble.found", members);
                    (sync::one_event(event), Step::More(Run::BringingUp(BringUp::Model)))
                },
                Err(error) => (sync::no_events(), Step::Done(Err(error))),
            },
            (Run::BringingUp(state), RunReply::Gatt(reply)) => {
                let (events, step) = state.next(options, reply);
                match step {
                    Step::More(state) => (events, Step::More(Run::BringingUp(state))),
                    Step::Done(result) => (events, Step::More(Run::Disconnecting { raised: result })),
                }
            },
            (Run::Disconnecting { raised }, _) => match raised {
                Ok(handoff) => (
                    bare_event("ble.disconnected"),
                    Step::More(Run::PickingBackend { handoff: Some(handoff) }),
                ),
                Err(error) => (bare_event("ble.disconnected"), Step::Done(Err(error))),
            },
            (Run::PickingBackend { handoff }, RunReply::Backend(result)) => match result {
                Ok(backend) => {
                    let (events, phase) = WifiPhase::start(backend.0.as_str(), backend.1);
                    (events, Step::More(Run::Wifi { handoff, phase }))
                },
                Err(error) => settle(options, handoff, Err(error)),
            },
            (Run::Wifi { handoff, phase }, RunReply::Wifi(reply)) => {
                let (events, step) = phase.next(options, &handoff, reply);
                match step {
                    Step::More(phase) => (events, Step::More(Run::Wifi { handoff, phase })),
                    Step::Done(result) => {
                        let (after, step) = settle(options, handoff, result);
                        (sync::followed_by(events, after), step)
                    },
                }
            },
            (Run::Reconnecting { woken, result }, RunReply::Connected(connected)) => {
                match connected {
                    Ok(_) => (
                        sync::no_events(),
                        Step::More(Run::PoweringOff { woken, result }),
                    ),
                    Err(error) => {
                        let (events, step) = end(Some(woken), result);
                        (sync::followed_by(power_off_failed(&error), events), step)
                    },
                }
            },
            (
                Run::PoweringOff { woken, result },
                RunReply::Gatt(GattReply::Written(switched)),
            ) => (
                sync::no_events(),
                Step::More(Run::HangingUp { woken, result, switched }),
            ),
            (Run::HangingUp { woken, result, switched }, _) => {
                let (events, step) = end(Some(woken), result);
                let first = match switched {
                    Ok(_) => bare_event("ble.powered_off"),
                    Err(error) => power_off_failed(&error),
                };
                (sync::followed_by(first, events), step)
            },
            (state, _) => (sync::no_events(), Step::More(state)),
        }
    }
}

/// Whether a state is part of switching the camera off.
pub open spec fn switching_off(state: RunView) -> Option<HandoffView> {
    match state {
        RunView::Reconnecting { woken, .. } => Some(woken),
        RunView::PoweringOff { woken, .. } => Some(woken),
        RunView::HangingUp { woken, .. } => Some(woken),
        _ => None,
    }
}

/// Whether a state is one that a sync can be in: the camera is being switched
/// off only where it may be.
pub open spec fn is_sound(options: OptionsView, state: RunView) -> bool {
    switching_off(state) matches Some(handoff) ==> may_power_off(options, handoff)
}

/// The camera is switched off only where gr3sync woke it, where that is asked
/// for, and not on a dry run.
pub proof fn lemma_only_a_woken_camera_is_switched_off(
    options: OptionsView,
    state: RunView,
    reply: RunReplyView,
)
    requires
        is_sound(options, state),
        run_answered(options, state, reply),
    ensures
        run_next(options, state, reply).1 matches StepView::More(next) ==> is_sound(options, next),
        run_work(options, state) == RunWorkView::Gatt(GattOp::Write(p::CHAR_CAMERA_POWER, 0))
            ==> (switching_off(state) matches Some(handoff) && may_power_off(options, handoff)),
        is_sound(options, begun(options).1),
{
}

/// Nothing but `Camera Power` and `Network Type` is ever written to the camera.
pub proof fn lemma_only_two_characteristics_are_written(options: OptionsView, state: RunView)
    ensures
        run_work(options, state) matches RunWorkView::Gatt(op) ==> ble::is_allowed(op),
{
}

/// Whether a state holds a Bluetooth connection.
pub open spec fn is_connected(state: RunView) -> bool {
    state is BringingUp || state is Disconnecting || state is PoweringOff || state is HangingUp
}

/// The Bluetooth connection is given up before anything is transferred over
/// Wi-Fi, and before the sync ends.
pub proof fn lemma_bluetooth_is_left_before_wifi(
    options: OptionsView,
    state: RunView,
    reply: RunReplyView,
)
    requires
        run_answered(options, state, reply),
    ensures
        run_work(options, state) is Wifi ==> !is_connected(state),
        is_connected(state) ==> match run_next(options, state, reply).1 {
            StepView::More(next) => is_connected(next) || run_work(options, state)
                == RunWorkView::Disconnect,
            StepView::Done(_) => run_work(options, state) == RunWorkView::Disconnect,
        },
{
}

/// Whether a state has nothing to do with Bluetooth.
pub open spec fn is_without_ble(state: RunView) -> bool {
    match state {
        RunView::CreatingDest => true,
        RunView::PickingBackend { handoff } => handoff is None,
        RunView::Wifi { handoff, phase } => handoff is None && wifi::keeps_off(phase),
        _ => false,
    }
}

/// Told to do without Bluetooth, a sync never uses it, and leaves the host's
/// network and the camera's access point alone.
pub proof fn lemma_without_ble(options: OptionsView, state: RunView, reply: RunReplyView)
    requires
        !options.use_ble,
        is_without_ble(state),
        run_answered(options, state, reply),
    ensures
        run_next(options, state, reply).1 matches StepView::More(next) ==> is_without_ble(next),
        match run_work(options, state) {
            RunWorkView::Connect { .. } => false,
            RunWorkView::Gatt(_) => false,
            RunWorkView::Disconnect => false,
            RunWorkView::Wifi(work) => !(work is Join) && !(work is FinishWlan) && !(
            work is Restore),
            _ => true,
        },
{
    if let RunView::Wifi { phase, .. } = state {
        if let RunReplyView::Wifi(reply) = reply {
            wifi::lemma_without_ble_nothing_is_touched(options, phase, reply);
        }
    }
}

/// A sync that succeeds ends with the event that sums it up.
pub proof fn lemma_done_comes_last(options: OptionsView, state: RunView, reply: RunReplyView)
    requires
        run_answered(options, state, reply),
    ensures
        ({
            let (events, step) = run_next(options, state, reply);
            step matches StepView::Done(Ok(outcome)) ==> events.len() > 0 && events.last()
                == sync::done_event(outcome)
        }),
{
}

/// What HTTP said of the camera stands; only what it did not say is filled in from
/// Bluetooth, and nothing else of the outcome changes.
pub proof fn lemma_bluetooth_fills_the_gaps(outcome: OutcomeView, handoff: HandoffView)
    ensures
        ({
            let told = completed(outcome, Some(handoff));
            &&& outcome.model is Some ==> told.model == outcome.model
            &&& outcome.model is None ==> told.model == handoff.model
            &&& outcome.battery is Some ==> told.battery == outcome.battery
            &&& outcome.battery is None ==> told.battery == handoff.battery
            &&& told.downloaded == outcome.downloaded
            &&& told.skipped == outcome.skipped
            &&& told.failed == outcome.failed
            &&& told.bytes_written == outcome.bytes_written
            &&& told.dest == outcome.dest
            &&& told.dry_run == outcome.dry_run
        }),
        completed(outcome, None) == outcome,
{
}

/// What cannot be had ends a sync as it failed: the destination by why it could not be
/// made, and the camera by why it could not be connected to. A camera that cannot be
/// reached again to be switched off only costs a note.
pub proof fn lemma_how_a_sync_fails(
    options: OptionsView,
    reason: Seq<char>,
    error: ErrorView,
    woken: HandoffView,
    result: ResultView<OutcomeView>,
)
    ensures
        run_next(options, RunView::CreatingDest, RunReplyView::Folder(Some(reason))).1 matches StepView::Done(
            Err(ErrorView::Io { source, .. }),
        ) && source == reason,
        run_next(options, RunView::Connecting, RunReplyView::Connected(Err(error))).1 == StepView::<
            RunView,
            OutcomeView,
        >::Done(Err(error)),
        ({
            let after = run_next(
                options,
                RunView::Reconnecting { woken, result },
                RunReplyView::Connected(Err(error)),
            );
            &&& after.0[0] == power_off_failed_event(error)
            &&& after.1 matches StepView::Done(end) && (end is Ok <==> result is Ok) && (
            result matches Err(why) ==> end == Err::<OutcomeView, ErrorView>(why))
        }),
{
}

/// What is told on the way: that the camera is looked for, and where, or that Bluetooth
/// is left out; the camera that was found; that it was hung up on; the backend that is
/// used; and whether it could be switched off.
pub proof fn lemma_what_is_told_on_the_way(
    options: OptionsView,
    camera: DiscoveredView,
    raised: ResultView<HandoffView>,
    handoff: Option<HandoffView>,
    name: Seq<char>,
    interactive: bool,
    woken: HandoffView,
    result: ResultView<OutcomeView>,
    switched: ResultView<()>,
)
    ensures
        ({
            let out = if options.dry_run {
                begun(options).0
            } else {
                run_next(options, RunView::CreatingDest, RunReplyView::Folder(None)).0
            };
            out == if options.use_ble {
                seq![scan_event(options.address)]
            } else {
                seq![skipped_event()]
            }
        }),
        run_next(options, RunView::Connecting, RunReplyView::Connected(Ok(camera))).0 == seq![
            found_event(camera),
        ],
        run_next(options, RunView::Disconnecting { raised }, RunReplyView::Disconnected).0 == seq![
            disconnected_event(),
        ],
        run_next(
            options,
            RunView::PickingBackend { handoff },
            RunReplyView::Backend(Ok((name, interactive))),
        ).0 == seq![wifi::backend_event(name, interactive)],
        run_next(
            options,
            RunView::HangingUp { woken, result, switched },
            RunReplyView::Disconnected,
        ).0[0] == match switched {
            Ok(_) => powered_off_event(),
            Err(error) => power_off_failed_event(error),
        },
{
}

} // verus!
