//! The Bluetooth phase: wake the camera and raise its access point.

use crate::ble;
use crate::ble::{GattOp, GattReply, GattReplyView, StartAp, StartApView, Wake};
use crate::error;
use crate::error::{Error, ErrorView, ResultView};
use crate::json;
use crate::json::{Json, JsonView};
use crate::procedure::{Step, StepView};
use crate::protocol as p;
use crate::sync;
use crate::sync::{Options, OptionsView};
use vstd::prelude::*;

verus! {

/// What the Bluetooth phase hands to the Wi-Fi phase.
#[derive(Debug)]
pub struct BleHandoff {
    pub ssid: String,
    pub passphrase: String,
    /// True when gr3sync, not the user, switched the camera on. The only case
    /// in which it may switch it back off.
    pub woke_it: bool,
    pub battery: Option<i64>,
    pub model: Option<String>,
}

/// A handoff, mathematically.
#[verifier::ext_equal]
pub struct HandoffView {
    pub ssid: Seq<char>,
    pub passphrase: Seq<char>,
    pub woke_it: bool,
    pub battery: Option<i64>,
    pub model: Option<Seq<char>>,
}

impl View for BleHandoff {
    type V = HandoffView;

    open spec fn view(&self) -> HandoffView {
        HandoffView {
            ssid: self.ssid@,
            passphrase: self.passphrase@,
            woke_it: self.woke_it,
            battery: self.battery,
            model: self.model.deep_view(),
        }
    }
}

impl DeepView for BleHandoff {
    type V = HandoffView;

    open spec fn deep_view(&self) -> HandoffView {
        self@
    }
}

/// The Bluetooth phase on a connected camera, told apart by what is being
/// waited for.
#[derive(Debug)]
pub enum BringUp {
    Model,
    Waking { model: Option<String>, wake: Wake },
    Battery { model: Option<String>, woke_it: bool },
    Raising { model: Option<String>, woke_it: bool, battery: Option<i64>, ap: StartAp },
}

#[verifier::ext_equal]
pub enum BringUpView {
    Model,
    Waking { model: Option<Seq<char>>, wake: Wake },
    Battery { model: Option<Seq<char>>, woke_it: bool },
    Raising { model: Option<Seq<char>>, woke_it: bool, battery: Option<i64>, ap: StartApView },
}

impl View for BringUp {
    type V = BringUpView;

    open spec fn view(&self) -> BringUpView {
        match *self {
            BringUp::Model => BringUpView::Model,
            BringUp::Waking { model, wake } => {
                BringUpView::Waking { model: model.deep_view(), wake }
            },
            BringUp::Battery { model, woke_it } => {
                BringUpView::Battery { model: model.deep_view(), woke_it }
            },
            BringUp::Raising { model, woke_it, battery, ap } => {
                BringUpView::Raising { model: model.deep_view(), woke_it, battery, ap: ap@ }
            },
        }
    }
}

impl DeepView for BringUp {
    type V = BringUpView;

    open spec fn deep_view(&self) -> BringUpView {
        self@
    }
}

/// What each state of the Bluetooth phase asks of the camera.
pub open spec fn bring_up_op(options: OptionsView, state: BringUpView) -> GattOp {
    match state {
        BringUpView::Model => GattOp::Read(p::CHAR_MODEL_NUMBER),
        BringUpView::Waking { wake, .. } => ble::wake_op(wake, options.wake_settle),
        BringUpView::Battery { .. } => GattOp::Read(p::CHAR_BATTERY_LEVEL),
        BringUpView::Raising { ap, .. } => ble::start_ap_op(ap, options.ap_settle),
    }
}

/// What the camera was before gr3sync came: off where Bluetooth is why it is
/// awake.
pub open spec fn previous_power(woke_it: bool) -> p::CameraPower {
    if woke_it {
        p::CameraPower::Off
    } else {
        p::CameraPower::On
    }
}

pub open spec fn awake_event(woke_it: bool) -> JsonView {
    sync::event(
        "ble.awake"@,
        seq![
            ("was"@, JsonView::Text(previous_power(woke_it).label())),
            ("woken_by_us"@, JsonView::Bool(woke_it)),
        ],
    )
}

pub open spec fn battery_event(battery: p::BatteryLevel) -> JsonView {
    sync::event(
        "ble.battery"@,
        seq![
            ("level"@, json::number_view(battery.level as int)),
            ("source"@, JsonView::Text(battery.source.label())),
        ],
    )
}

pub open spec fn battery_unavailable_event(error: ErrorView) -> JsonView {
    sync::event(
        "ble.battery.unavailable"@,
        seq![("error"@, JsonView::Text(error::error_message(error)))],
    )
}

pub open spec fn ap_up_event(ssid: Seq<char>) -> JsonView {
    sync::event("ble.ap_up"@, seq![("ssid"@, JsonView::Text(ssid))])
}

/// Whether a battery is too low to start on: not on mains, and below the floor.
pub open spec fn too_low(battery: p::BatteryLevel, floor: i8) -> bool {
    battery.source != p::PowerSource::AcAdapter && battery.level < floor
}

/// How the Bluetooth phase goes on, and what is reported.
///
/// Identity is nice-to-have: a camera that refuses the read can still be synced.
/// So is the battery, but one that is known to be too low stops the run.
pub open spec fn bring_up_next(
    options: OptionsView,
    state: BringUpView,
    reply: GattReplyView,
) -> (Seq<JsonView>, StepView<BringUpView, HandoffView>) {
    match (state, reply) {
        (BringUpView::Model, GattReplyView::Value(raw)) => {
            let model = match ble::text_in(raw) {
                Ok(model) => Some(model),
                Err(_) => None,
            };
            (seq![], StepView::More(BringUpView::Waking { model, wake: Wake::Mode }))
        },
        (BringUpView::Waking { model, wake }, _) => match ble::wake_next(wake, reply) {
            StepView::More(wake) => (
                seq![],
                StepView::More(BringUpView::Waking { model, wake }),
            ),
            StepView::Done(Err(error)) => (seq![], StepView::Done(Err(error))),
            StepView::Done(Ok(woke_it)) => (
                seq![awake_event(woke_it)],
                StepView::More(BringUpView::Battery { model, woke_it }),
            ),
        },
        (BringUpView::Battery { model, woke_it }, GattReplyView::Value(raw)) => {
            match ble::battery_in(raw) {
                Ok(battery) => (
                    seq![battery_event(battery)],
                    if too_low(battery, options.min_battery) {
                        StepView::Done(
                            Err(
                                ErrorView::BatteryTooLow {
                                    level: battery.level,
                                    floor: options.min_battery,
                                },
                            ),
                        )
                    } else {
                        StepView::More(
                            BringUpView::Raising {
                                model,
                                woke_it,
                                battery: Some(battery.level as i64),
                                ap: StartApView::Type,
                            },
                        )
                    },
                ),
                Err(error) => (
                    seq![battery_unavailable_event(error)],
                    StepView::More(
                        BringUpView::Raising {
                            model,
                            woke_it,
                            battery: None,
                            ap: StartApView::Type,
                        },
                    ),
                ),
            }
        },
        (BringUpView::Raising { model, woke_it, battery, ap }, _) => {
            match ble::start_ap_next(ap, reply) {
                StepView::More(ap) => (
                    seq![],
                    StepView::More(BringUpView::Raising { model, woke_it, battery, ap }),
                ),
                StepView::Done(Err(error)) => (seq![], StepView::Done(Err(error))),
                StepView::Done(Ok(credentials)) => (
                    seq![ap_up_event(credentials.ssid)],
                    StepView::Done(
                        Ok(
                            HandoffView {
                                ssid: credentials.ssid,
                                passphrase: credentials.passphrase,
                                woke_it,
                                battery,
                                model,
                            },
                        ),
                    ),
                ),
            }
        },
        _ => (seq![], StepView::More(state)),
    }
}

/// How far the Bluetooth phase is from its end.
pub open spec fn bring_up_rank(state: BringUpView) -> nat {
    match state {
        BringUpView::Model => 12,
        BringUpView::Waking { wake, .. } => 7 + ble::wake_rank(wake),
        BringUpView::Battery { .. } => 6,
        BringUpView::Raising { ap, .. } => ble::start_ap_rank(ap),
    }
}

impl BringUp {
    /// What to ask of the camera.
    pub fn op(&self, options: &Options) -> (op: GattOp)
        ensures
            op == bring_up_op(options@, self@),
    {
        match self {
            BringUp::Model => GattOp::Read(p::CHAR_MODEL_NUMBER),
            BringUp::Waking { wake, .. } => wake.op(options.wake_settle),
            BringUp::Battery { .. } => GattOp::Read(p::CHAR_BATTERY_LEVEL),
            BringUp::Raising { ap, .. } => ap.op(options.ap_settle),
        }
    }

    /// Go on from the camera's reply, reporting what happened.
    pub fn next(self, options: &Options, reply: GattReply) -> (next: (
        Vec<Json>,
        Step<BringUp, BleHandoff>,
    ))
        requires
            ble::replies_to(bring_up_op(options@, self@), reply@),
        ensures
            (next.0.deep_view(), next.1@) == bring_up_next(options@, self@, reply@),
            next.1@ matches StepView::More(state) ==> bring_up_rank(state) < bring_up_rank(self@),
    {
        let mut events: Vec<Json> = Vec::new();
        match self {
            BringUp::Model => {
                let model = match reply {
                    GattReply::Value(raw) => match ble::text_from(raw) {
                        Ok(model) => Some(model),
                        Err(_) => None,
                    },
                    _ => None,
                };
                assert(events.deep_view() =~= Seq::empty());
                (events, Step::More(BringUp::Waking { model, wake: Wake::Mode }))
            },
            BringUp::Waking { model, wake } => match wake.next(reply) {
                Step::More(wake) => {
                    assert(events.deep_view() =~= Seq::empty());
                    (events, Step::More(BringUp::Waking { model, wake }))
                },
                Step::Done(Err(error)) => {
                    assert(events.deep_view() =~= Seq::empty());
                    (events, Step::Done(Err(error)))
                },
                Step::Done(Ok(woke_it)) => {
                    events.push(awake_json(woke_it));
                    assert(events.deep_view() =~= seq![awake_event(woke_it)]);
                    (events, Step::More(BringUp::Battery { model, woke_it }))
                },
            },
            BringUp::Battery { model, woke_it } => {
                let level = match reply {
                    GattReply::Value(raw) => ble::battery_from(raw),
                    _ => Err(Error::CameraNotFound),
                };
                match level {
                    Ok(battery) => {
                        events.push(battery_json(battery));
                        assert(events.deep_view() =~= seq![battery_event(battery)]);
                        if !battery.on_ac() && battery.level < options.min_battery {
                            (
                                events,
                                Step::Done(
                                    Err(
                                        Error::BatteryTooLow {
                                            level: battery.level,
                                            floor: options.min_battery,
                                        },
                                    ),
                                ),
                            )
                        } else {
                            (
                                events,
                                Step::More(
                                    BringUp::Raising {
                                        model,
                                        woke_it,
                                        battery: Some(battery.level as i64),
                                        ap: StartAp::Type,
                                    },
                                ),
                            )
                        }
                    },
                    Err(error) => {
                        let members: Vec<(String, Json)> = vec![
                            json::named("error", json::of_text(error.message().as_str())),
                        ];
                        assert(members.deep_view() =~= seq![
                            ("error"@, JsonView::Text(error::error_message(error@))),
                        ]);
                        events.push(sync::event_json("ble.battery.unavailable", members));
                        assert(events.deep_view() =~= seq![battery_unavailable_event(error@)]);
                        (
                            events,
                            Step::More(
                                BringUp::Raising {
                                    model,
                                    woke_it,
                                    battery: None,
                                    ap: StartAp::Type,
                                },
                            ),
                        )
                    },
                }
            },
            BringUp::Raising { model, woke_it, battery, ap } => match ap.next(reply) {
                Step::More(ap) => {
                    assert(events.deep_view() =~= Seq::empty());
                    (events, Step::More(BringUp::Raising { model, woke_it, battery, ap }))
                },
                Step::Done(Err(error)) => {
                    assert(events.deep_view() =~= Seq::empty());
                    (events, Step::Done(Err(error)))
                },
                Step::Done(Ok(credentials)) => {
                    let members: Vec<(String, Json)> = vec![
                        json::named("ssid", json::of_text(credentials.ssid.as_str())),
                    ];
                    assert(members.deep_view() =~= seq![
                        ("ssid"@, JsonView::Text(credentials.ssid@)),
                    ]);
                    events.push(sync::event_json("ble.ap_up", members));
                    assert(events.deep_view() =~= seq![ap_up_event(credentials.ssid@)]);
                    (
                        events,
                        Step::Done(
                            Ok(
                                BleHandoff {
                                    ssid: credentials.ssid,
                                    passphrase: credentials.passphrase,
                                    woke_it,
                                    battery,
                                    model,
                                },
                            ),
                        ),
                    )
                },
            },
        }
    }
}

fn awake_json(woke_it: bool) -> (event: Json)
    ensures
        event@ == awake_event(woke_it),
{
    let was = if woke_it {
        p::CameraPower::Off
    } else {
        p::CameraPower::On
    };
    let members: Vec<(String, Json)> = vec![
        json::named("was", json::of_text(was.name())),
        json::named("woken_by_us", Json::Bool(woke_it)),
    ];
    assert(members.deep_view() =~= seq![
        ("was"@, JsonView::Text(previous_power(woke_it).label())),
        ("woken_by_us"@, JsonView::Bool(woke_it)),
    ]);
    sync::event_json("ble.awake", members)
}

fn battery_json(battery: p::BatteryLevel) -> (event: Json)
    ensures
        event@ == battery_event(battery),
{
    let members: Vec<(String, Json)> = vec![
        json::named("level", json::of_number(battery.level as i128)),
        json::named("source", json::of_text(battery.source.name())),
    ];
    assert(members.deep_view() =~= seq![
        ("level"@, json::number_view(battery.level as int)),
        ("source"@, JsonView::Text(battery.source.label())),
    ]);
    sync::event_json("ble.battery", members)
}

/// The Bluetooth phase writes nothing but `Camera Power` on and `Network Type`
/// AP mode.
pub proof fn lemma_bring_up_writes(options: OptionsView, state: BringUpView)
    ensures
        ble::is_allowed(bring_up_op(options, state)),
        bring_up_op(options, state) matches GattOp::Write(uuid, byte) ==> {
            ||| uuid == p::CHAR_CAMERA_POWER && byte == p::sint8_byte(p::CameraPower::On.code())
            ||| uuid == p::CHAR_NETWORK_TYPE && byte == p::sint8_byte(
                p::NetworkType::ApMode.code(),
            )
        },
{
}

/// A battery known to be below the floor, with the camera not on mains, stops
/// the run before the access point is raised; and nothing else about the battery
/// does.
pub proof fn lemma_the_battery_floor(
    options: OptionsView,
    model: Option<Seq<char>>,
    woke_it: bool,
    raw: ResultView<Seq<u8>>,
)
    ensures
        ({
            let next = bring_up_next(
                options,
                BringUpView::Battery { model, woke_it },
                GattReplyView::Value(raw),
            ).1;
            match ble::battery_in(raw) {
                Ok(battery) => if battery.source != p::PowerSource::AcAdapter && battery.level
                    < options.min_battery {
                    next == StepView::<BringUpView, HandoffView>::Done(
                        Err(
                            ErrorView::BatteryTooLow {
                                level: battery.level,
                                floor: options.min_battery,
                            },
                        ),
                    )
                } else {
                    next matches StepView::More(
                        BringUpView::Raising { model: kept, woke_it: woken, battery: level, .. },
                    ) && kept == model && woken == woke_it && level == Some(battery.level as i64)
                },
                Err(_) => next matches StepView::More(
                    BringUpView::Raising { model: kept, woke_it: woken, battery: level, .. },
                ) && kept == model && woken == woke_it && level is None,
            }
        }),
{
}

/// Whether a state of the Bluetooth phase, once it has learnt it, knows that the
/// camera was woken by Bluetooth.
pub open spec fn knows_it_woke(state: BringUpView) -> Option<bool> {
    match state {
        BringUpView::Battery { woke_it, .. } => Some(woke_it),
        BringUpView::Raising { woke_it, .. } => Some(woke_it),
        _ => None,
    }
}

/// Once it is known whether Bluetooth woke the camera, the handoff says so.
pub proof fn lemma_woke_it_is_kept(
    options: OptionsView,
    state: BringUpView,
    reply: GattReplyView,
)
    requires
        knows_it_woke(state) is Some,
    ensures
        match bring_up_next(options, state, reply).1 {
            StepView::More(next) => knows_it_woke(next) == knows_it_woke(state),
            StepView::Done(Ok(handoff)) => Some(handoff.woke_it) == knows_it_woke(state),
            StepView::Done(Err(_)) => true,
        },
{
}

/// What a state of the Bluetooth phase knows of the model.
pub open spec fn known_model(state: BringUpView) -> Option<Seq<char>> {
    match state {
        BringUpView::Model => None,
        BringUpView::Waking { model, .. } => model,
        BringUpView::Battery { model, .. } => model,
        BringUpView::Raising { model, .. } => model,
    }
}

/// The handoff says what was read: the model that the camera gave, or none where it
/// gave none, which stops nothing; the battery as it was last known; and the
/// credentials that raising the access point came to.
pub proof fn lemma_the_handoff_says_what_was_read(
    options: OptionsView,
    state: BringUpView,
    reply: GattReplyView,
    raw: ResultView<Seq<u8>>,
)
    requires
        ble::replies_to(bring_up_op(options, state), reply),
    ensures
        bring_up_next(options, BringUpView::Model, GattReplyView::Value(raw)).1 matches StepView::More(
            next,
        ) && known_model(next) == match raw {
            Ok(bytes) => Some(p::decoded_text(bytes)),
            Err(_) => None,
        } && bring_up_op(options, next) == GattOp::Read(p::CHAR_OPERATION_MODE),
        !(state is Model) ==> match bring_up_next(options, state, reply).1 {
            StepView::More(next) => known_model(next) == known_model(state),
            StepView::Done(Ok(handoff)) => {
                &&& handoff.model == known_model(state)
                &&& state matches BringUpView::Raising { battery, ap, .. } && handoff.battery
                    == battery && (ble::start_ap_next(ap, reply) matches StepView::Done(
                    Ok(credentials),
                ) && credentials.ssid == handoff.ssid && credentials.passphrase
                    == handoff.passphrase)
            },
            StepView::Done(Err(_)) => true,
        },
        (state matches BringUpView::Raising { battery, .. } && bring_up_next(
            options,
            state,
            reply,
        ).1 is More) ==> (bring_up_next(options, state, reply).1->More_0 matches BringUpView::Raising {
            battery: kept,
            ..
        } && kept == state->Raising_battery),
{
}

/// What is told of the Bluetooth phase: whether Bluetooth woke the camera, its battery
/// or why that is not known, and the network that came up.
pub proof fn lemma_what_is_told_of_the_bluetooth_phase(
    options: OptionsView,
    model: Option<Seq<char>>,
    woke_it: bool,
    raw: ResultView<Seq<u8>>,
    battery: Option<i64>,
    ssid: Seq<char>,
    passphrase: Seq<u8>,
)
    ensures
        bring_up_next(
            options,
            BringUpView::Waking { model, wake: Wake::Settle { ours: woke_it } },
            GattReplyView::Settled,
        ).0 == seq![awake_event(woke_it)],
        bring_up_next(
            options,
            BringUpView::Battery { model, woke_it },
            GattReplyView::Value(raw),
        ).0 == match ble::battery_in(raw) {
            Ok(battery) => seq![battery_event(battery)],
            Err(error) => seq![battery_unavailable_event(error)],
        },
        ssid.len() > 0 ==> bring_up_next(
            options,
            BringUpView::Raising { model, woke_it, battery, ap: StartApView::Passphrase { ssid } },
            GattReplyView::Value(Ok(passphrase)),
        ).0 == seq![ap_up_event(ssid)],
{
}

} // verus!
