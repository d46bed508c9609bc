//! The Wi-Fi phase: join the camera's access point if need be, pull, and put
//! the host's network back.
//!
//! Teardown runs whatever the body did: the result is kept, the network is put
//! back, and only then is the result handed on.

use crate::error;
use crate::error::{ErrorView, Result, ResultView};
use crate::json;
use crate::json::{Json, JsonView};
use crate::netlink;
use crate::netlink::{WifiState, WifiStateView};
use crate::procedure::{Step, StepView};
use crate::sync;
use crate::sync::bring_up::{BleHandoff, HandoffView};
use crate::sync::pull;
use crate::sync::pull::{Pull, PullReply, PullReplyView, PullView, PullWork, PullWorkView};
use crate::sync::{Options, OptionsView, Outcome, OutcomeView};
use crate::text;
use vstd::prelude::*;

verus! {

/// The Wi-Fi phase, told apart by what is being waited for.
///
/// `joined` says that the host was made to join the camera's network, whether or
/// not that worked: a join that fails may have left the old network before it
/// did.
#[derive(Debug)]
pub enum WifiPhase {
    Current,
    Joining { previous: WifiState },
    Waiting { previous: WifiState, joined: bool },
    Pulling { previous: WifiState, joined: bool, pull: Pull },
    Finishing { previous: WifiState, joined: bool, result: Result<Outcome> },
    Restoring { previous: WifiState, result: Result<Outcome> },
}

#[verifier::ext_equal]
pub enum WifiPhaseView {
    Current,
    Joining { previous: WifiStateView },
    Waiting { previous: WifiStateView, joined: bool },
    Pulling { previous: WifiStateView, joined: bool, pull: PullView },
    Finishing { previous: WifiStateView, joined: bool, result: ResultView<OutcomeView> },
    Restoring { previous: WifiStateView, result: ResultView<OutcomeView> },
}

impl View for WifiPhase {
    type V = WifiPhaseView;

    open spec fn view(&self) -> WifiPhaseView {
        match *self {
            WifiPhase::Current => WifiPhaseView::Current,
            WifiPhase::Joining { previous } => WifiPhaseView::Joining { previous: previous@ },
            WifiPhase::Waiting { previous, joined } => {
                WifiPhaseView::Waiting { previous: previous@, joined }
            },
            WifiPhase::Pulling { previous, joined, pull } => {
                WifiPhaseView::Pulling { previous: previous@, joined, pull: pull@ }
            },
            WifiPhase::Finishing { previous, joined, result } => {
                WifiPhaseView::Finishing {
                    previous: previous@,
                    joined,
                    result: error::seen(result),
                }
            },
            WifiPhase::Restoring { previous, result } => {
                WifiPhaseView::Restoring { previous: previous@, result: error::seen(result) }
            },
        }
    }
}

impl DeepView for WifiPhase {
    type V = WifiPhaseView;

    open spec fn deep_view(&self) -> WifiPhaseView {
        self@
    }
}

/// What the Wi-Fi phase asks to be done.
#[derive(Debug)]
pub enum WifiWork {
    /// Snapshot the host's association.
    QueryCurrent,
    Join { ssid: String, passphrase: String, interface: Option<String> },
    /// Wait until the camera answers, for up to so many milliseconds.
    WaitUntilUp(u64),
    Pull(PullWork),
    /// Ask the camera to drop its access point.
    FinishWlan,
    Restore(WifiState),
}

#[verifier::ext_equal]
pub enum WifiWorkView {
    QueryCurrent,
    Join { ssid: Seq<char>, passphrase: Seq<char>, interface: Option<Seq<char>> },
    WaitUntilUp(u64),
    Pull(PullWorkView),
    FinishWlan,
    Restore(WifiStateView),
}

impl View for WifiWork {
    type V = WifiWorkView;

    open spec fn view(&self) -> WifiWorkView {
        match *self {
            WifiWork::QueryCurrent => WifiWorkView::QueryCurrent,
            WifiWork::Join { ssid, passphrase, interface } => {
                WifiWorkView::Join {
                    ssid: ssid@,
                    passphrase: passphrase@,
                    interface: interface.deep_view(),
                }
            },
            WifiWork::WaitUntilUp(timeout) => WifiWorkView::WaitUntilUp(timeout),
            WifiWork::Pull(work) => WifiWorkView::Pull(work@),
            WifiWork::FinishWlan => WifiWorkView::FinishWlan,
            WifiWork::Restore(state) => WifiWorkView::Restore(state@),
        }
    }
}

/// What came of it.
#[derive(Debug)]
pub enum WifiReply {
    Current(Result<WifiState>),
    Joined(Result<()>),
    Up(Result<()>),
    Pull(PullReply),
    Finished,
    Restored(Result<()>),
}

#[verifier::ext_equal]
pub enum WifiReplyView {
    Current(ResultView<WifiStateView>),
    Joined(ResultView<()>),
    Up(ResultView<()>),
    Pull(PullReplyView),
    Finished,
    Restored(ResultView<()>),
}

impl View for WifiReply {
    type V = WifiReplyView;

    open spec fn view(&self) -> WifiReplyView {
        match *self {
            WifiReply::Current(result) => WifiReplyView::Current(error::seen(result)),
            WifiReply::Joined(result) => WifiReplyView::Joined(error::seen(result)),
            WifiReply::Up(result) => WifiReplyView::Up(error::seen(result)),
            WifiReply::Pull(reply) => WifiReplyView::Pull(reply@),
            WifiReply::Finished => WifiReplyView::Finished,
            WifiReply::Restored(result) => WifiReplyView::Restored(error::seen(result)),
        }
    }
}

/// What each state of the Wi-Fi phase asks for.
pub open spec fn wifi_work(
    options: OptionsView,
    handoff: Option<HandoffView>,
    state: WifiPhaseView,
) -> WifiWorkView {
    match state {
        WifiPhaseView::Current => WifiWorkView::QueryCurrent,
        WifiPhaseView::Joining { .. } => match handoff {
            Some(handoff) => WifiWorkView::Join {
                ssid: handoff.ssid,
                passphrase: handoff.passphrase,
                interface: options.wifi_interface,
            },
            None => WifiWorkView::QueryCurrent,
        },
        WifiPhaseView::Waiting { .. } => WifiWorkView::WaitUntilUp(options.ap_timeout),
        WifiPhaseView::Pulling { pull, .. } => WifiWorkView::Pull(pull::pull_work(options, pull)),
        WifiPhaseView::Finishing { .. } => WifiWorkView::FinishWlan,
        WifiPhaseView::Restoring { previous, .. } => WifiWorkView::Restore(previous),
    }
}

/// Whether a reply is one that the state can have.
pub open spec fn wifi_answered(state: WifiPhaseView, reply: WifiReplyView) -> bool {
    match state {
        WifiPhaseView::Current => reply is Current,
        WifiPhaseView::Joining { .. } => reply is Joined,
        WifiPhaseView::Waiting { .. } => reply is Up,
        WifiPhaseView::Pulling { pull, .. } => reply matches WifiReplyView::Pull(reply)
            && pull::pull_answered(pull, reply),
        WifiPhaseView::Finishing { .. } => reply is Finished,
        WifiPhaseView::Restoring { .. } => reply is Restored,
    }
}

pub open spec fn backend_event(name: Seq<char>, interactive: bool) -> JsonView {
    sync::event(
        "wifi.backend"@,
        seq![("name"@, JsonView::Text(name)), ("interactive"@, JsonView::Bool(interactive))],
    )
}

pub open spec fn join_event(ssid: Seq<char>, from: Option<Seq<char>>) -> JsonView {
    sync::event(
        "wifi.join"@,
        seq![("ssid"@, JsonView::Text(ssid)), ("from"@, json::optional_text_view(from))],
    )
}

pub open spec fn up_event(host: Seq<char>) -> JsonView {
    sync::event("http.up"@, seq![("host"@, JsonView::Text(host))])
}

pub open spec fn ap_down_event() -> JsonView {
    sync::event("wifi.camera_ap_down"@, seq![])
}

pub open spec fn restore_event(ssid: Option<Seq<char>>) -> JsonView {
    sync::event("wifi.restore"@, seq![("ssid"@, json::optional_text_view(ssid))])
}

pub open spec fn restore_failed_event(error: ErrorView) -> JsonView {
    sync::event(
        "wifi.restore_failed"@,
        seq![("error"@, JsonView::Text(error::error_message(error)))],
    )
}

/// Putting the host's network back, where it may have been changed, before handing
/// the result on.
pub open spec fn put_back(
    previous: WifiStateView,
    joined: bool,
    result: ResultView<OutcomeView>,
) -> (Seq<JsonView>, StepView<WifiPhaseView, OutcomeView>) {
    if joined {
        (
            seq![restore_event(previous.ssid)],
            StepView::More(WifiPhaseView::Restoring { previous, result }),
        )
    } else {
        (seq![], StepView::Done(result))
    }
}

/// Taking down what was put up: the camera's access point first, where it was
/// raised over Bluetooth, since that is the only step that needs its network;
/// then the host's association.
///
/// Without Bluetooth the access point is left alone: the user raised it and it
/// is theirs.
pub open spec fn tear_down(
    had_handoff: bool,
    previous: WifiStateView,
    joined: bool,
    result: ResultView<OutcomeView>,
) -> (Seq<JsonView>, StepView<WifiPhaseView, OutcomeView>) {
    if had_handoff {
        (
            seq![ap_down_event()],
            StepView::More(WifiPhaseView::Finishing { previous, joined, result }),
        )
    } else {
        put_back(previous, joined, result)
    }
}

/// How the Wi-Fi phase goes on, and what is reported.
pub open spec fn wifi_next(
    options: OptionsView,
    handoff: Option<HandoffView>,
    state: WifiPhaseView,
    reply: WifiReplyView,
) -> (Seq<JsonView>, StepView<WifiPhaseView, OutcomeView>) {
    match (state, reply) {
        (WifiPhaseView::Current, WifiReplyView::Current(result)) => {
            let previous = match result {
                Ok(state) => state,
                Err(_) => netlink::no_association(),
            };
            match handoff {
                Some(handoff) => if previous.ssid != Some(handoff.ssid) {
                    (
                        seq![join_event(handoff.ssid, previous.ssid)],
                        StepView::More(WifiPhaseView::Joining { previous }),
                    )
                } else {
                    (
                        seq![],
                        StepView::More(WifiPhaseView::Waiting { previous, joined: false }),
                    )
                },
                None => (
                    seq![],
                    StepView::More(WifiPhaseView::Waiting { previous, joined: false }),
                ),
            }
        },
        (WifiPhaseView::Joining { previous }, WifiReplyView::Joined(result)) => match result {
            Ok(_) => (
                seq![],
                StepView::More(WifiPhaseView::Waiting { previous, joined: true }),
            ),
            Err(error) => tear_down(handoff is Some, previous, true, Err(error)),
        },
        (WifiPhaseView::Waiting { previous, joined }, WifiReplyView::Up(result)) => match result {
            Ok(_) => (
                seq![up_event(options.host)],
                StepView::More(
                    WifiPhaseView::Pulling { previous, joined, pull: PullView::Props },
                ),
            ),
            Err(error) => tear_down(handoff is Some, previous, joined, Err(error)),
        },
        (WifiPhaseView::Pulling { previous, joined, pull }, WifiReplyView::Pull(reply)) => {
            let (events, step) = pull::pull_next(options, pull, reply);
            match step {
                StepView::More(pull) => (
                    events,
                    StepView::More(WifiPhaseView::Pulling { previous, joined, pull }),
                ),
                StepView::Done(result) => {
                    let down = tear_down(handoff is Some, previous, joined, result);
                    (events + down.0, down.1)
                },
            }
        },
        (WifiPhaseView::Finishing { previous, joined, result }, _) => put_back(
            previous,
            joined,
            result,
        ),
        (WifiPhaseView::Restoring { previous, result }, WifiReplyView::Restored(restored)) => {
            match restored {
                Ok(_) => (seq![], StepView::Done(result)),
                Err(error) => (seq![restore_failed_event(error)], StepView::Done(result)),
            }
        },
        _ => (seq![], StepView::More(state)),
    }
}

fn put_back_step(previous: WifiState, joined: bool, result: Result<Outcome>) -> (next: (
    Vec<Json>,
    Step<WifiPhase, Outcome>,
))
    ensures
        (next.0.deep_view(), next.1@) == put_back(previous@, joined, error::seen(result)),
{
    if joined {
        let members: Vec<(String, Json)> = vec![
            json::named("ssid", json::of_optional_text(&previous.ssid)),
        ];
        assert(members.deep_view() =~= seq![
            ("ssid"@, json::optional_text_view(previous@.ssid)),
        ]);
        let event = sync::event_json("wifi.restore", members);
        (sync::one_event(event), Step::More(WifiPhase::Restoring { previous, result }))
    } else {
        (sync::no_events(), Step::Done(result))
    }
}

fn tear_down_step(
    had_handoff: bool,
    previous: WifiState,
    joined: bool,
    result: Result<Outcome>,
) -> (next: (Vec<Json>, Step<WifiPhase, Outcome>))
    ensures
        (next.0.deep_view(), next.1@) == tear_down(
            had_handoff,
            previous@,
            joined,
            error::seen(result),
        ),
{
    if had_handoff {
        let members: Vec<(String, Json)> = Vec::new();
        assert(members.deep_view() =~= Seq::empty());
        let event = sync::event_json("wifi.camera_ap_down", members);
        (sync::one_event(event), Step::More(WifiPhase::Finishing { previous, joined, result }))
    } else {
        put_back_step(previous, joined, result)
    }
}

impl WifiPhase {
    /// Set out on the Wi-Fi phase with a backend.
    pub fn start(name: &str, interactive: bool) -> (start: (Vec<Json>, WifiPhase))
        ensures
            start.0.deep_view() == seq![backend_event(name@, interactive)],
            start.1@ == WifiPhaseView::Current,
    {
        let members: Vec<(String, Json)> = vec![
            json::named("name", json::of_text(name)),
            json::named("interactive", Json::Bool(interactive)),
        ];
        assert(members.deep_view() =~= seq![
            ("name"@, JsonView::Text(name@)),
            ("interactive"@, JsonView::Bool(interactive)),
        ]);
        let event = sync::event_json("wifi.backend", members);
        (sync::one_event(event), WifiPhase::Current)
    }

    /// What to do.
    pub fn work(&self, options: &Options, handoff: &Option<BleHandoff>) -> (work: WifiWork)
        ensures
            work@ == wifi_work(options@, handoff.deep_view(), self@),
    {
        match self {
            WifiPhase::Current => WifiWork::QueryCurrent,
            WifiPhase::Joining { .. } => match handoff {
                Some(handoff) => WifiWork::Join {
                    ssid: handoff.ssid.clone(),
                    passphrase: handoff.passphrase.clone(),
                    interface: options.wifi_interface.clone(),
                },
                None => WifiWork::QueryCurrent,
            },
            WifiPhase::Waiting { .. } => WifiWork::WaitUntilUp(options.ap_timeout),
            WifiPhase::Pulling { pull, .. } => WifiWork::Pull(pull.work(options)),
            WifiPhase::Finishing { .. } => WifiWork::FinishWlan,
            WifiPhase::Restoring { previous, .. } => WifiWork::Restore(previous.clone()),
        }
    }

    /// Whether a reply is one that the state can have.
    pub fn accepts(&self, reply: &WifiReply) -> (yes: bool)
        ensures
            yes == wifi_answered(self@, reply@),
    {
        match (self, reply) {
            (WifiPhase::Current, WifiReply::Current(_)) => true,
            (WifiPhase::Joining { .. }, WifiReply::Joined(_)) => true,
            (WifiPhase::Waiting { .. }, WifiReply::Up(_)) => true,
            (WifiPhase::Pulling { pull, .. }, WifiReply::Pull(reply)) => pull.accepts(reply),
            (WifiPhase::Finishing { .. }, WifiReply::Finished) => true,
            (WifiPhase::Restoring { .. }, WifiReply::Restored(_)) => true,
            _ => false,
        }
    }

    /// Go on from what came of it, reporting what happened.
    pub fn next(self, options: &Options, handoff: &Option<BleHandoff>, reply: WifiReply) -> (next: (
        Vec<Json>,
        Step<WifiPhase, Outcome>,
    ))
        requires
            wifi_answered(self@, reply@),
        ensures
            (next.0.deep_view(), next.1@) == wifi_next(
                options@,
                handoff.deep_view(),
                self@,
                reply@,
            ),
    {
        match (self, reply) {
            (WifiPhase::Current, WifiReply::Current(result)) => {
                let previous = match result {
                    Ok(state) => state,
                    Err(_) => WifiState::default(),
                };
                match handoff {
                    Some(handoff) => {
                        let there = match &previous.ssid {
                            Some(ssid) => text::same(ssid.as_str(), handoff.ssid.as_str()),
                            None => false,
                        };
                        if !there {
                            let members: Vec<(String, Json)> = vec![
                                json::named("ssid", json::of_text(handoff.ssid.as_str())),
                                json::named("from", json::of_optional_text(&previous.ssid)),
                            ];
                            assert(members.deep_view() =~= seq![
                                ("ssid"@, JsonView::Text(handoff.ssid@)),
                                ("from"@, json::optional_text_view(previous@.ssid)),
                            ]);
                            let event = sync::event_json("wifi.join", members);
                            (sync::one_event(event), Step::More(WifiPhase::Joining { previous }))
                        } else {
                            (
                                sync::no_events(),
                                Step::More(WifiPhase::Waiting { previous, joined: false }),
                            )
                        }
                    },
                    None => (
                        sync::no_events(),
                        Step::More(WifiPhase::Waiting { previous, joined: false }),
                    ),
                }
            },
            (WifiPhase::Joining { previous }, WifiReply::Joined(result)) => match result {
                Ok(_) => (
                    sync::no_events(),
                    Step::More(WifiPhase::Waiting { previous, joined: true }),
                ),
                Err(error) => tear_down_step(handoff.is_some(), previous, true, Err(error)),
            },
            (WifiPhase::Waiting { previous, joined }, WifiReply::Up(result)) => match result {
                Ok(_) => {
                    let members: Vec<(String, Json)> = vec![
                        json::named("host", json::of_text(options.host.as_str())),
                    ];
                    assert(members.deep_view() =~= seq![
                        ("host"@, JsonView::Text(options@.host)),
                    ]);
                    let event = sync::event_json("http.up", members);
                    (
                        sync::one_event(event),
                        Step::More(WifiPhase::Pulling { previous, joined, pull: Pull::Props }),
                    )
                },
                Err(error) => tear_down_step(handoff.is_some(), previous, joined, Err(error)),
            },
            (WifiPhase::Pulling { previous, joined, pull }, WifiReply::Pull(reply)) => {
                let (events, step) = pull.next(options, reply);
                match step {
                    Step::More(pull) => (
                        events,
                        Step::More(WifiPhase::Pulling { previous, joined, pull }),
                    ),
                    Step::Done(result) => {
                        let (down, step) = tear_down_step(
                            handoff.is_some(),
                            previous,
                            joined,
                            result,
                        );
                        (sync::followed_by(events, down), step)
                    },
                }
            },
            (WifiPhase::Finishing { previous, joined, result }, _) => put_back_step(
                previous,
                joined,
                result,
            ),
            (WifiPhase::Restoring { previous, result }, WifiReply::Restored(restored)) => {
                match restored {
                    Ok(_) => (sync::no_events(), Step::Done(result)),
                    Err(error) => {
                        let members: Vec<(String, Json)> = vec![
                            json::named("error", json::of_text(error.message().as_str())),
                        ];
                        assert(members.deep_view() =~= seq![
                            ("error"@, JsonView::Text(error::error_message(error@))),
                        ]);
                        let event = sync::event_json("wifi.restore_failed", members);
                        (sync::one_event(event), Step::Done(result))
                    },
                }
            },
            (state, _) => (sync::no_events(), Step::More(state)),
        }
    }
}

/// Whether the host has been made to join the camera's network, whether or not
/// that worked, and not been put back yet.
pub open spec fn moved(state: WifiPhaseView) -> bool {
    match state {
        WifiPhaseView::Waiting { joined, .. } => joined,
        WifiPhaseView::Pulling { joined, .. } => joined,
        WifiPhaseView::Finishing { joined, .. } => joined,
        WifiPhaseView::Restoring { .. } => true,
        _ => false,
    }
}

/// What the host was on before.
pub open spec fn origin(state: WifiPhaseView) -> Option<WifiStateView> {
    match state {
        WifiPhaseView::Current => None,
        WifiPhaseView::Joining { previous } => Some(previous),
        WifiPhaseView::Waiting { previous, .. } => Some(previous),
        WifiPhaseView::Pulling { previous, .. } => Some(previous),
        WifiPhaseView::Finishing { previous, .. } => Some(previous),
        WifiPhaseView::Restoring { previous, .. } => Some(previous),
    }
}

/// A host that was made to join the camera's network is put back to where it was,
/// whatever else happens, and where joining failed too: the phase ends for it only
/// after the attempt to restore its own network. Any other host is not touched.
pub proof fn lemma_the_host_is_put_back(
    options: OptionsView,
    handoff: Option<HandoffView>,
    state: WifiPhaseView,
    reply: WifiReplyView,
)
    requires
        wifi_answered(state, reply),
    ensures
        match wifi_next(options, handoff, state, reply).1 {
            StepView::More(next) => {
                &&& moved(state) ==> moved(next)
                &&& origin(state) is Some ==> origin(next) == origin(state)
                &&& state is Joining ==> moved(next)
                &&& moved(next) && !moved(state) ==> state is Joining
            },
            StepView::Done(_) => !(state is Joining) && (moved(state) ==> wifi_work(
                options,
                handoff,
                state,
            ) == WifiWorkView::Restore(origin(state).unwrap())),
        },
        wifi_work(options, handoff, state) is Restore ==> moved(state),
{
}

/// A join that fails is undone like one that worked: the access point is dropped,
/// the host is put back to where it was, and then the failure is handed on.
pub proof fn lemma_a_failed_join_is_undone(
    options: OptionsView,
    handoff: HandoffView,
    previous: WifiStateView,
    error: ErrorView,
    restored: ResultView<()>,
)
    ensures
        ({
            let raised = Some(handoff);
            let failed: ResultView<OutcomeView> = Err(error);
            let finishing = WifiPhaseView::Finishing { previous, joined: true, result: failed };
            let restoring = WifiPhaseView::Restoring { previous, result: failed };
            &&& wifi_next(
                options,
                raised,
                WifiPhaseView::Joining { previous },
                WifiReplyView::Joined(Err(error)),
            ).1 == StepView::<WifiPhaseView, OutcomeView>::More(finishing)
            &&& wifi_work(options, raised, finishing) == WifiWorkView::FinishWlan
            &&& wifi_next(options, raised, finishing, WifiReplyView::Finished).1 == StepView::<
                WifiPhaseView,
                OutcomeView,
            >::More(restoring)
            &&& wifi_work(options, raised, restoring) == WifiWorkView::Restore(previous)
            &&& wifi_next(options, raised, restoring, WifiReplyView::Restored(restored)).1
                == StepView::<WifiPhaseView, OutcomeView>::Done(failed)
        }),
{
}

/// The result that the phase came to is handed on unchanged by the teardown.
pub proof fn lemma_teardown_keeps_the_result(
    options: OptionsView,
    handoff: Option<HandoffView>,
    state: WifiPhaseView,
    reply: WifiReplyView,
    result: ResultView<OutcomeView>,
)
    requires
        wifi_answered(state, reply),
        (state is Finishing && state->Finishing_result == result) || (state is Restoring
            && state->Restoring_result == result),
    ensures
        match wifi_next(options, handoff, state, reply).1 {
            StepView::More(next) => next is Restoring && next->Restoring_result == result,
            StepView::Done(handed_on) => handed_on == result,
        },
{
}

/// The camera's access point is dropped while the host is still on its network:
/// with a handoff, neither the restoring nor the end is reached but through
/// dropping it.
pub proof fn lemma_the_access_point_goes_first(
    options: OptionsView,
    handoff: Option<HandoffView>,
    state: WifiPhaseView,
    reply: WifiReplyView,
)
    requires
        handoff is Some,
        wifi_answered(state, reply),
        !(state is Finishing) && !(state is Restoring),
    ensures
        match wifi_next(options, handoff, state, reply).1 {
            StepView::More(next) => !(next is Restoring),
            StepView::Done(_) => false,
        },
        forall|previous: WifiStateView, joined: bool, result: ResultView<OutcomeView>|
            #[trigger]
            wifi_work(options, handoff, WifiPhaseView::Finishing { previous, joined, result })
                == WifiWorkView::FinishWlan,
{
}

/// Whether a state is one that a phase without a handoff can be in.
pub open spec fn keeps_off(state: WifiPhaseView) -> bool {
    match state {
        WifiPhaseView::Current => true,
        WifiPhaseView::Waiting { joined, .. } => !joined,
        WifiPhaseView::Pulling { joined, .. } => !joined,
        _ => false,
    }
}

/// Without Bluetooth neither the host's network nor the camera's access point is
/// touched.
pub proof fn lemma_without_ble_nothing_is_touched(
    options: OptionsView,
    state: WifiPhaseView,
    reply: WifiReplyView,
)
    requires
        keeps_off(state),
        wifi_answered(state, reply),
    ensures
        !(wifi_work(options, None, state) is Join),
        !(wifi_work(options, None, state) is FinishWlan),
        !(wifi_work(options, None, state) is Restore),
        wifi_next(options, None, state, reply).1 matches StepView::More(next) ==> keeps_off(next),
{
}

/// A host that is already on the camera's network is not made to join it.
pub proof fn lemma_no_rejoin(
    options: OptionsView,
    handoff: HandoffView,
    previous: WifiStateView,
)
    requires
        previous.ssid == Some(handoff.ssid),
    ensures
        wifi_next(
            options,
            Some(handoff),
            WifiPhaseView::Current,
            WifiReplyView::Current(Ok(previous)),
        ).1 == StepView::<WifiPhaseView, OutcomeView>::More(
            WifiPhaseView::Waiting { previous, joined: false },
        ),
{
}

/// What is told of the Wi-Fi phase: the network that is joined and the one that is
/// left, the camera that came up, that its access point is dropped, and the network
/// that the host is put back to, or why it could not be.
pub proof fn lemma_what_is_told_of_the_wifi_phase(
    options: OptionsView,
    handoff: HandoffView,
    home: WifiStateView,
    joined: bool,
    result: ResultView<OutcomeView>,
    error: ErrorView,
)
    ensures
        home.ssid != Some(handoff.ssid) ==> wifi_next(
            options,
            Some(handoff),
            WifiPhaseView::Current,
            WifiReplyView::Current(Ok(home)),
        ).0 == seq![join_event(handoff.ssid, home.ssid)],
        wifi_next(
            options,
            Some(handoff),
            WifiPhaseView::Waiting { previous: home, joined },
            WifiReplyView::Up(Ok(())),
        ).0 == seq![up_event(options.host)],
        wifi_next(
            options,
            Some(handoff),
            WifiPhaseView::Waiting { previous: home, joined },
            WifiReplyView::Up(Err(error)),
        ).0 == seq![ap_down_event()],
        wifi_next(
            options,
            Some(handoff),
            WifiPhaseView::Finishing { previous: home, joined: true, result },
            WifiReplyView::Finished,
        ).0 == seq![restore_event(home.ssid)],
        wifi_next(
            options,
            Some(handoff),
            WifiPhaseView::Restoring { previous: home, result },
            WifiReplyView::Restored(Err(error)),
        ).0 == seq![restore_failed_event(error)],
        wifi_next(
            options,
            Some(handoff),
            WifiPhaseView::Restoring { previous: home, result },
            WifiReplyView::Restored(Ok(())),
        ).0.len() == 0,
{
}

} // verus!
