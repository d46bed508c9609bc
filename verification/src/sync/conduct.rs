//! What a whole sync asks for, where that comes from, and what becomes of the
//! answers.

use crate::ble::{GattOp, GattReplyView, StartApView, Wake};
use crate::camera::{PhotoView, PropsView};
use crate::error;
use crate::error::{ErrorView, ResultView};
use crate::ids::Uuid;
use crate::json;
use crate::json::JsonView;
use crate::procedure::StepView;
use crate::protocol as p;
use crate::state::EntryView;
use crate::sync;
use crate::sync::bring_up;
use crate::sync::bring_up::{BringUpView, HandoffView};
use crate::sync::history;
use crate::sync::pull;
use crate::sync::pull::{PullReplyView, PullView, PullWorkView, TransfersView};
use crate::sync::run;
use crate::sync::run::{RunReplyView, RunView, RunWorkView};
use crate::sync::wifi;
use crate::sync::wifi::{WifiPhaseView, WifiReplyView, WifiWorkView};
use crate::sync::{OptionsView, OutcomeView};
use vstd::prelude::*;

verus! {

proof fn lemma_as_told(options: OptionsView, state: RunView, replies: Seq<RunReplyView>)
    ensures
        forall|i: int|
            0 <= i < history::works(options, state, replies).len() ==> match (
            #[trigger] history::works(options, state, replies)[i]) {
                RunWorkView::CreateFolder(path) => path == options.dest,
                RunWorkView::Connect { address, timeout } => address == options.address && timeout
                    == options.scan_timeout,
                RunWorkView::Gatt(GattOp::Settle(millis)) => millis == options.wake_settle
                    || millis == options.ap_settle,
                RunWorkView::PickBackend(name) => name == options.wifi_backend,
                RunWorkView::Wifi(WifiWorkView::Join { interface, .. }) => interface
                    == options.wifi_interface,
                RunWorkView::Wifi(WifiWorkView::WaitUntilUp(millis)) => millis
                    == options.ap_timeout,
                RunWorkView::Wifi(
                    WifiWorkView::Pull(PullWorkView::Download { photo, target, .. }),
                ) => target == sync::local(options.dest, photo, options.keep_dirs),
                _ => true,
            },
    decreases replies.len(),
{
    if replies.len() > 0 && run::run_answered(options, state, replies[0]) {
        let all = history::works(options, state, replies);
        match run::run_next(options, state, replies[0]).1 {
            StepView::More(next) => {
                lemma_as_told(options, next, replies.skip(1));
                let later = history::works(options, next, replies.skip(1));
                assert(all =~= seq![run::run_work(options, state)] + later);
                assert(forall|i: int| 1 <= i < all.len() ==> all[i] == later[i - 1]);
            },
            StepView::Done(_) => {
                assert(all =~= seq![run::run_work(options, state)]);
            },
        }
    }
}

/// Of every sync, as far as it gets: whatever is asked for carries what the options
/// say. Each connection is made to the camera at the address given, or to whichever
/// is in range where none is, and scanned for so long; the backend picked is the one
/// named; the host joins on the interface given; the camera is waited for as long as
/// told; the folder made is the destination, and each file downloaded goes below it.
pub proof fn lemma_a_sync_asks_for_what_it_was_told(
    options: OptionsView,
    replies: Seq<RunReplyView>,
)
    ensures
        forall|i: int|
            0 <= i < history::works(options, run::begun(options).1, replies).len() ==> match (
            #[trigger] history::works(options, run::begun(options).1, replies)[i]) {
                RunWorkView::CreateFolder(path) => path == options.dest,
                RunWorkView::Connect { address, timeout } => address == options.address && timeout
                    == options.scan_timeout,
                RunWorkView::Gatt(GattOp::Settle(millis)) => millis == options.wake_settle
                    || millis == options.ap_settle,
                RunWorkView::PickBackend(name) => name == options.wifi_backend,
                RunWorkView::Wifi(WifiWorkView::Join { interface, .. }) => interface
                    == options.wifi_interface,
                RunWorkView::Wifi(WifiWorkView::WaitUntilUp(millis)) => millis
                    == options.ap_timeout,
                RunWorkView::Wifi(
                    WifiWorkView::Pull(PullWorkView::Download { photo, target, .. }),
                ) => target == sync::local(options.dest, photo, options.keep_dirs),
                _ => true,
            },
{
    lemma_as_told(options, run::begun(options).1, replies);
}

/// Whether reading a characteristic gave a text.
pub open spec fn reading_gave(
    work: RunWorkView,
    reply: RunReplyView,
    uuid: Uuid,
    text: Seq<char>,
) -> bool {
    &&& work == RunWorkView::Gatt(GattOp::Read(uuid))
    &&& reply matches RunReplyView::Gatt(GattReplyView::Value(Ok(raw))) && p::decoded_text(raw)
        == text
}

/// Whether one of the first `n` replies was such a reading.
pub open spec fn was_read(
    works: Seq<RunWorkView>,
    replies: Seq<RunReplyView>,
    n: int,
    uuid: Uuid,
    text: Seq<char>,
) -> bool {
    exists|j: int| 0 <= j < n && #[trigger] reading_gave(works[j], replies[j], uuid, text)
}

spec fn ssid_held(state: RunView) -> Option<Seq<char>> {
    match state {
        RunView::BringingUp(
            BringUpView::Raising { ap: StartApView::Passphrase { ssid }, .. },
        ) => Some(ssid),
        RunView::Disconnecting { raised: Ok(handoff) } => Some(handoff.ssid),
        RunView::PickingBackend { handoff: Some(handoff) } => Some(handoff.ssid),
        RunView::Wifi { handoff: Some(handoff), .. } => Some(handoff.ssid),
        _ => None,
    }
}

spec fn passphrase_held(state: RunView) -> Option<Seq<char>> {
    match state {
        RunView::Disconnecting { raised: Ok(handoff) } => Some(handoff.passphrase),
        RunView::PickingBackend { handoff: Some(handoff) } => Some(handoff.passphrase),
        RunView::Wifi { handoff: Some(handoff), .. } => Some(handoff.passphrase),
        _ => None,
    }
}

proof fn lemma_credentials(options: OptionsView, state: RunView, replies: Seq<RunReplyView>, i: int)
    requires
        0 <= i < history::works(options, state, replies).len(),
        history::works(options, state, replies)[i] matches RunWorkView::Wifi(
            WifiWorkView::Join { .. },
        ),
    ensures
        history::works(options, state, replies)[i] matches RunWorkView::Wifi(
            WifiWorkView::Join { ssid, passphrase, .. },
        ) && {
            let works = history::works(options, state, replies);
            &&& ssid_held(state) == Some(ssid) || was_read(works, replies, i, p::CHAR_SSID, ssid)
            &&& passphrase_held(state) == Some(passphrase) || was_read(
                works,
                replies,
                i,
                p::CHAR_PASSPHRASE,
                passphrase,
            )
        },
    decreases replies.len(),
{
    let all = history::works(options, state, replies);
    let rest = replies.skip(1);
    lemma_no_more_works_than_replies(options, state, replies);
    if i > 0 {
        let next = run::run_next(options, state, replies[0]).1->More_0;
        let later = history::works(options, next, rest);
        assert(all =~= seq![run::run_work(options, state)] + later);
        assert(all[i] == later[i - 1]);
        lemma_credentials(options, next, rest, i - 1);
        let join = all[i]->Wifi_0;
        let ssid = join->ssid;
        let passphrase = join->passphrase;
        assert(all[0] == run::run_work(options, state));
        lemma_read_earlier(all, later, replies, i, p::CHAR_SSID, ssid);
        lemma_read_earlier(all, later, replies, i, p::CHAR_PASSPHRASE, passphrase);
        if ssid_held(next) == Some(ssid) && ssid_held(state) != Some(ssid) {
            assert(reading_gave(all[0], replies[0], p::CHAR_SSID, ssid));
        }
        if passphrase_held(next) == Some(passphrase) && passphrase_held(state) != Some(
            passphrase,
        ) {
            assert(reading_gave(all[0], replies[0], p::CHAR_PASSPHRASE, passphrase));
        }
    }
}

proof fn lemma_read_earlier(
    all: Seq<RunWorkView>,
    later: Seq<RunWorkView>,
    replies: Seq<RunReplyView>,
    i: int,
    uuid: Uuid,
    text: Seq<char>,
)
    requires
        0 < i < all.len(),
        all.len() == later.len() + 1,
        all.len() <= replies.len(),
        forall|j: int| 0 <= j < later.len() ==> all[j + 1] == #[trigger] later[j],
    ensures
        was_read(later, replies.skip(1), i - 1, uuid, text) ==> was_read(
            all,
            replies,
            i,
            uuid,
            text,
        ),
{
    if was_read(later, replies.skip(1), i - 1, uuid, text) {
        let j = choose|j: int|
            0 <= j < i - 1 && #[trigger] reading_gave(later[j], replies.skip(1)[j], uuid, text);
        assert(reading_gave(all[j + 1], replies[j + 1], uuid, text));
    }
}

proof fn lemma_no_more_works_than_replies(
    options: OptionsView,
    state: RunView,
    replies: Seq<RunReplyView>,
)
    ensures
        history::works(options, state, replies).len() <= replies.len(),
    decreases replies.len(),
{
    if replies.len() > 0 && run::run_answered(options, state, replies[0]) {
        if let StepView::More(next) = run::run_next(options, state, replies[0]).1 {
            lemma_no_more_works_than_replies(options, next, replies.skip(1));
        }
    }
}

/// Of every sync: the host joins the network whose name and passphrase the camera
/// itself gave over Bluetooth before.
pub proof fn lemma_the_host_joins_the_network_the_camera_named(
    options: OptionsView,
    replies: Seq<RunReplyView>,
    i: int,
)
    requires
        0 <= i < history::works(options, run::begun(options).1, replies).len(),
        history::works(options, run::begun(options).1, replies)[i] matches RunWorkView::Wifi(
            WifiWorkView::Join { .. },
        ),
    ensures
        history::works(options, run::begun(options).1, replies)[i] matches RunWorkView::Wifi(
            WifiWorkView::Join { ssid, passphrase, interface },
        ) && {
            let works = history::works(options, run::begun(options).1, replies);
            &&& was_read(works, replies, i, p::CHAR_SSID, ssid)
            &&& was_read(works, replies, i, p::CHAR_PASSPHRASE, passphrase)
            &&& interface == options.wifi_interface
        },
{
    lemma_credentials(options, run::begun(options).1, replies, i);
    lemma_as_told(options, run::begun(options).1, replies);
}

/// What was asked and answered while pulling, of all that a sync was answered.
pub open spec fn pull_replies(replies: Seq<RunReplyView>) -> Seq<PullReplyView>
    decreases replies.len(),
{
    if replies.len() == 0 {
        seq![]
    } else {
        match replies[0] {
            RunReplyView::Wifi(WifiReplyView::Pull(reply)) => seq![reply] + pull_replies(
                replies.skip(1),
            ),
            _ => pull_replies(replies.skip(1)),
        }
    }
}

/// Whether a sync ends as its pull did: with its error, or with its outcome, to which
/// only the model and the battery may be added, where the pull could not tell them.
pub open spec fn ends_as(pull: ResultView<OutcomeView>, end: ResultView<OutcomeView>) -> bool {
    match (pull, end) {
        (Ok(inner), Ok(outcome)) => {
            &&& outcome.downloaded == inner.downloaded
            &&& outcome.skipped == inner.skipped
            &&& outcome.failed == inner.failed
            &&& outcome.bytes_written == inner.bytes_written
            &&& outcome.dest == inner.dest
            &&& outcome.dry_run == inner.dry_run
            &&& inner.model is Some ==> outcome.model == inner.model
            &&& inner.battery is Some ==> outcome.battery == inner.battery
        },
        (Err(why), Err(error)) => why == error,
        _ => false,
    }
}

spec fn result_held(state: RunView) -> Option<ResultView<OutcomeView>> {
    match state {
        RunView::Wifi { phase: WifiPhaseView::Finishing { result, .. }, .. } => Some(result),
        RunView::Wifi { phase: WifiPhaseView::Restoring { result, .. }, .. } => Some(result),
        RunView::Reconnecting { result, .. } => Some(result),
        RunView::PoweringOff { result, .. } => Some(result),
        RunView::HangingUp { result, .. } => Some(result),
        _ => None,
    }
}

spec fn pull_held(state: RunView) -> Option<PullView> {
    match state {
        RunView::Wifi { phase: WifiPhaseView::Pulling { pull, .. }, .. } => Some(pull),
        _ => None,
    }
}

proof fn lemma_result(options: OptionsView, state: RunView, replies: Seq<RunReplyView>)
    requires
        history::ran(options, state, replies) is Some,
    ensures
        ({
            let end = history::ran(options, state, replies).unwrap();
            let asked = pull_replies(replies);
            match (result_held(state), pull_held(state)) {
                (Some(result), _) => asked.len() == 0 && ends_as(result, end),
                (None, Some(pull)) => history::pulled(options, pull, asked) matches Some(result)
                    && ends_as(result, end),
                (None, None) => {
                    &&& asked.len() > 0 ==> (history::pulled(
                        options,
                        PullView::Props,
                        asked,
                    ) matches Some(result) && ends_as(result, end))
                    &&& end is Ok ==> asked.len() > 0
                },
            }
        }),
    decreases replies.len(),
{
    let rest = replies.skip(1);
    let asked = pull_replies(replies);
    let step = run::run_next(options, state, replies[0]).1;
    if let StepView::More(next) = step {
        lemma_result(options, next, rest);
    } else {
        assert(pull_replies(rest) =~= Seq::empty());
    }
    if let Some(pull) = pull_held(state) {
        let reply = replies[0]->Wifi_0->Pull_0;
        assert(asked =~= seq![reply] + pull_replies(rest));
        assert(asked.skip(1) =~= pull_replies(rest));
        assert(asked[0] == reply);
        assert(pull_replies(rest).len() == 0 ==> asked.len() == 1);
        if let StepView::More(next) = pull::pull_next(options, pull, reply).1 {
            assert(history::pulled(options, pull, asked) == history::pulled(
                options,
                next,
                pull_replies(rest),
            ));
        }
    } else {
        assert(asked == pull_replies(rest));
    }
}

/// Of a whole sync: it ends as its pull did. Its outcome is what the pull came to, and
/// a pull that failed is reported as it failed; a sync that got as far as no pull did
/// not succeed.
pub proof fn lemma_a_sync_ends_as_its_pull_did(options: OptionsView, replies: Seq<RunReplyView>)
    requires
        history::ran(options, run::begun(options).1, replies) is Some,
    ensures
        ({
            let end = history::ran(options, run::begun(options).1, replies).unwrap();
            let asked = pull_replies(replies);
            &&& asked.len() > 0 ==> (history::pulled(options, PullView::Props, asked) matches Some(
                result,
            ) && ends_as(result, end))
            &&& asked.len() == 0 ==> end is Err
        }),
{
    lemma_result(options, run::begun(options).1, replies);
}

/// Whether a sync ends with putting the camera back to sleep, or with the attempt: it
/// connects once more, and where that works switches the camera off, and hangs up.
pub open spec fn goes_to_sleep(works: Seq<RunWorkView>, replies: Seq<RunReplyView>) -> bool {
    let last = works.len() - 1;
    ||| {
        &&& last >= 0
        &&& works[last] is Connect
        &&& replies[last] matches RunReplyView::Connected(Err(_))
    }
    ||| {
        &&& last >= 2
        &&& works[last - 2] is Connect
        &&& works[last - 1] == RunWorkView::Gatt(GattOp::Write(p::CHAR_CAMERA_POWER, 0))
        &&& works[last] == RunWorkView::Disconnect
    }
}

/// Whether a state holds a camera that Bluetooth woke.
spec fn holds_a_woken_camera(state: RunView) -> bool {
    match state {
        RunView::PickingBackend { handoff: Some(handoff) } => handoff.woke_it,
        RunView::Wifi { handoff: Some(handoff), .. } => handoff.woke_it,
        RunView::Reconnecting { .. } => true,
        _ => false,
    }
}

proof fn lemma_sleep(options: OptionsView, state: RunView, replies: Seq<RunReplyView>)
    requires
        history::ran(options, state, replies) is Some,
        options.power_off,
        !options.dry_run,
    ensures
        history::works(options, state, replies).len() == replies.len(),
        holds_a_woken_camera(state) ==> goes_to_sleep(
            history::works(options, state, replies),
            replies,
        ),
        state is PoweringOff ==> {
            let works = history::works(options, state, replies);
            &&& works.len() == 2
            &&& works[0] == RunWorkView::Gatt(GattOp::Write(p::CHAR_CAMERA_POWER, 0))
            &&& works[1] == RunWorkView::Disconnect
        },
        state is HangingUp ==> history::works(options, state, replies) == seq![
            RunWorkView::Disconnect,
        ],
        state is Reconnecting ==> history::works(options, state, replies)[0] is Connect,
    decreases replies.len(),
{
    let all = history::works(options, state, replies);
    let rest = replies.skip(1);
    match run::run_next(options, state, replies[0]).1 {
        StepView::More(next) => {
            lemma_sleep(options, next, rest);
            let later = history::works(options, next, rest);
            assert(all =~= seq![run::run_work(options, state)] + later);
            assert(forall|i: int| 0 <= i < later.len() ==> all[i + 1] == later[i]);
            assert(forall|i: int| 0 <= i < rest.len() ==> replies[i + 1] == rest[i]);
            if holds_a_woken_camera(state) && holds_a_woken_camera(next) {
                assert(goes_to_sleep(later, rest));
                assert(all.last() == later.last());
                assert(replies.last() == rest.last());
            }
        },
        StepView::Done(_) => {
            assert(all =~= seq![run::run_work(options, state)]);
        },
    }
}

/// Whether the camera said that Bluetooth woke it, where a state knows.
spec fn mode_held(state: RunView) -> Option<bool> {
    match state {
        RunView::BringingUp(BringUpView::Waking { wake, .. }) => match wake {
            Wake::Mode => None,
            Wake::Power { ours } => Some(ours),
            Wake::SwitchOn { ours } => Some(ours),
            Wake::Settle { ours } => Some(ours),
        },
        RunView::BringingUp(BringUpView::Battery { woke_it, .. }) => Some(woke_it),
        RunView::BringingUp(BringUpView::Raising { woke_it, .. }) => Some(woke_it),
        RunView::Disconnecting { raised: Ok(handoff) } => Some(handoff.woke_it),
        RunView::PickingBackend { handoff: Some(handoff) } => Some(handoff.woke_it),
        RunView::Wifi { handoff: Some(handoff), .. } => Some(handoff.woke_it),
        _ => None,
    }
}

proof fn lemma_put_to_sleep(options: OptionsView, state: RunView, replies: Seq<RunReplyView>, k: int)
    requires
        history::ran(options, state, replies) is Some,
        options.power_off,
        !options.dry_run,
        0 <= k < replies.len(),
        history::works(options, state, replies)[k] is PickBackend,
        mode_held(state) == Some(true) || exists|i: int|
            0 <= i < replies.len() && #[trigger] history::says_ble_started_it(
                history::works(options, state, replies)[i],
                replies[i],
            ),
        mode_held(state) == Some(true) || !(state is PickingBackend) && !(state is Wifi) && !(
        state is Disconnecting) && run::switching_off(state) is None && mode_held(state) is None,
    ensures
        goes_to_sleep(history::works(options, state, replies), replies),
    decreases replies.len(),
{
    let all = history::works(options, state, replies);
    let rest = replies.skip(1);
    lemma_sleep(options, state, replies);
    if !holds_a_woken_camera(state) {
        let next = run::run_next(options, state, replies[0]).1;
        if next is Done {
            assert(all =~= seq![run::run_work(options, state)]);
            assert(k == 0);
        }
        let next = next->More_0;
        let later = history::works(options, next, rest);
        lemma_sleep(options, next, rest);
        assert(all =~= seq![run::run_work(options, state)] + later);
        assert(forall|i: int| 0 <= i < later.len() ==> all[i + 1] == later[i]);
        assert(forall|i: int| 0 <= i < rest.len() ==> replies[i + 1] == rest[i]);
        assert(k > 0);
        assert(later[k - 1] == all[k]);
        if next matches RunView::Disconnecting { raised: Err(_) } {
            assert(later =~= seq![RunWorkView::Disconnect]);
            assert(later[k - 1] is Disconnect);
        }
        if mode_held(state) != Some(true) {
            let i = choose|i: int|
                0 <= i < replies.len() && #[trigger] history::says_ble_started_it(
                    all[i],
                    replies[i],
                );
            if i > 0 {
                assert(history::says_ble_started_it(later[i - 1], rest[i - 1]));
            }
            if mode_held(next) == Some(false) || next is PickingBackend {
                lemma_no_second_mode(options, next, rest);
                assert(later[i - 1] == all[i]);
            }
        }
        lemma_put_to_sleep(options, next, rest, k - 1);
        assert(all.last() == later.last());
        assert(replies.last() == rest.last());
    }
}

/// The operation mode is read once.
proof fn lemma_no_second_mode(options: OptionsView, state: RunView, replies: Seq<RunReplyView>)
    requires
        match state {
            RunView::CreatingDest => false,
            RunView::Connecting => false,
            RunView::BringingUp(_) => mode_held(state) is Some,
            _ => true,
        },
    ensures
        forall|i: int|
            0 <= i < history::works(options, state, replies).len() ==> (
            #[trigger] history::works(options, state, replies)[i]) != RunWorkView::Gatt(
                GattOp::Read(p::CHAR_OPERATION_MODE),
            ),
    decreases replies.len(),
{
    if replies.len() > 0 && run::run_answered(options, state, replies[0]) {
        let all = history::works(options, state, replies);
        match run::run_next(options, state, replies[0]).1 {
            StepView::More(next) => {
                lemma_no_second_mode(options, next, replies.skip(1));
                let later = history::works(options, next, replies.skip(1));
                assert(all =~= seq![run::run_work(options, state)] + later);
                assert(forall|i: int| 1 <= i < all.len() ==> all[i] == later[i - 1]);
            },
            StepView::Done(_) => {
                assert(all =~= seq![run::run_work(options, state)]);
            },
        }
    }
}

/// Of a whole sync, however it ends: where the camera said that Bluetooth is why it
/// is awake, and its access point came up so that a backend was asked for, then the
/// sync ends with putting it back to sleep, where that is asked for and it is no dry
/// run.
pub proof fn lemma_a_woken_camera_is_put_back_to_sleep(
    options: OptionsView,
    replies: Seq<RunReplyView>,
    i: int,
    k: int,
)
    requires
        history::ran(options, run::begun(options).1, replies) is Some,
        options.power_off,
        !options.dry_run,
        0 <= i < replies.len(),
        0 <= k < replies.len(),
        history::says_ble_started_it(
            history::works(options, run::begun(options).1, replies)[i],
            replies[i],
        ),
        history::works(options, run::begun(options).1, replies)[k] is PickBackend,
    ensures
        goes_to_sleep(history::works(options, run::begun(options).1, replies), replies),
{
    lemma_put_to_sleep(options, run::begun(options).1, replies, k);
}

/// What pulling asks for on the way, a piece of work for each reply.
pub open spec fn pull_works(options: OptionsView, state: PullView, replies: Seq<PullReplyView>) -> Seq<
    PullWorkView,
>
    decreases replies.len(),
{
    if replies.len() == 0 {
        seq![]
    } else {
        seq![pull::pull_work(options, state)] + match pull::pull_next(
            options,
            state,
            replies[0],
        ).1 {
            StepView::More(next) => pull_works(options, next, replies.skip(1)),
            StepView::Done(_) => seq![],
        }
    }
}

/// The files that are downloaded, in order.
pub open spec fn photos_fetched(works: Seq<PullWorkView>) -> Seq<PhotoView>
    decreases works.len(),
{
    if works.len() == 0 {
        seq![]
    } else {
        match works[0] {
            PullWorkView::Download { photo, .. } => seq![photo] + photos_fetched(works.skip(1)),
            _ => photos_fetched(works.skip(1)),
        }
    }
}

/// A ledger that notes, of these files, those that arrived, each with its size and
/// the camera it came from.
pub open spec fn noted(
    ledger: Map<Seq<char>, EntryView>,
    photos: Seq<PhotoView>,
    results: Seq<ResultView<u64>>,
    model: Seq<char>,
    keep_dirs: bool,
) -> Map<Seq<char>, EntryView>
    decreases results.len(),
{
    if results.len() == 0 {
        ledger
    } else {
        let now = match results[0] {
            Ok(written) => ledger.insert(
                sync::key_of(photos[0], keep_dirs),
                EntryView { size: written, camera: Some(model) },
            ),
            Err(_) => ledger,
        };
        noted(now, photos.skip(1), results.skip(1), model, keep_dirs)
    }
}

proof fn lemma_downloads(
    options: OptionsView,
    state: PullView,
    replies: Seq<PullReplyView>,
    kept: Map<Seq<char>, EntryView>,
)
    requires
        history::pulled(options, state, replies) matches Some(Ok(_)),
        match state {
            PullView::Downloading(t) => 0 <= t.index < t.pending.len(),
            PullView::Saving(t) => 0 <= t.index < t.pending.len(),
            _ => false,
        },
    ensures
        ({
            let works = pull_works(options, state, replies);
            let t = history::transfers_in(state);
            let left = if state is Downloading {
                t.pending.skip(t.index)
            } else {
                t.pending.skip(t.index + 1)
            };
            &&& works.len() == replies.len()
            &&& photos_fetched(works) == left
            &&& forall|i: int|
                0 <= i < works.len() ==> match (#[trigger] works[i]) {
                    PullWorkView::Download { photo, target, legacy } => legacy == t.legacy && target
                        == sync::local(options.dest, photo, options.keep_dirs),
                    PullWorkView::SaveLedger => true,
                    _ => false,
                }
            &&& forall|i: int|
                0 <= i < works.len() && ((
                #[trigger] replies[i]) matches PullReplyView::Downloaded(Ok(_))) ==> i + 1
                    < works.len() && works[i + 1] is SaveLedger
            &&& history::saves_worked(replies) && (state is Downloading ==> kept == t.ledger)
                ==> history::ledger_kept(options, state, replies, kept) == noted(
                t.ledger,
                left,
                history::fetched(replies),
                t.model,
                options.keep_dirs,
            )
            &&& history::fetched(replies).len() == left.len()
        }),
    decreases replies.len(),
{
    let reply = replies[0];
    let rest = replies.skip(1);
    let works = pull_works(options, state, replies);
    let t = history::transfers_in(state);
    assert(history::saves_worked(replies) ==> history::saves_worked(rest)) by {
        assert forall|i: int| history::saves_worked(replies) && 0 <= i < rest.len() implies ((
        #[trigger] rest[i]) matches PullReplyView::Saved(saved) ==> saved is Ok) by {
            assert(rest[i] == replies[i + 1]);
        }
    }
    let kept_next = match (state, reply) {
        (PullView::Saving(t), PullReplyView::Saved(Ok(_))) => t.ledger,
        _ => kept,
    };
    let fetched = history::fetched(replies);
    match pull::pull_next(options, state, reply).1 {
        StepView::More(next) => {
            lemma_downloads(options, next, rest, kept_next);
            let later = pull_works(options, next, rest);
            assert(works =~= seq![pull::pull_work(options, state)] + later);
            assert(works.skip(1) =~= later);
            assert(forall|i: int| 0 <= i < later.len() ==> works[i + 1] == later[i]);
            assert(forall|i: int| 1 <= i < works.len() ==> works[i] == later[i - 1]);
            assert forall|i: int|
                0 <= i < works.len() && ((
                #[trigger] replies[i]) matches PullReplyView::Downloaded(Ok(_))) implies i + 1
                < works.len() && works[i + 1] is SaveLedger by {
                if i > 0 {
                    assert(rest[i - 1] == replies[i]);
                } else {
                    assert(later.len() > 0);
                    assert(later[0] == pull::pull_work(options, next));
                }
            }
            if let PullReplyView::Downloaded(result) = reply {
                assert(fetched =~= seq![result] + history::fetched(rest));
                assert(fetched.skip(1) =~= history::fetched(rest));
                let left = t.pending.skip(t.index);
                assert(left.skip(1) =~= t.pending.skip(t.index + 1));
                assert(left[0] == t.pending[t.index]);
                assert(left =~= seq![t.pending[t.index]] + left.skip(1));
            }
            if reply is Saved && history::saves_worked(replies) {
                assert(replies[0] == reply);
            }
            if history::saves_worked(replies) && (state is Downloading ==> kept == t.ledger) {
                assert(history::ledger_kept(options, state, replies, kept) == history::ledger_kept(
                    options,
                    next,
                    rest,
                    kept_next,
                ));
                if let PullReplyView::Downloaded(result) = reply {
                    let now = history::transfers_in(next).ledger;
                    assert(noted(
                        t.ledger,
                        t.pending.skip(t.index),
                        fetched,
                        t.model,
                        options.keep_dirs,
                    ) == noted(
                        now,
                        t.pending.skip(t.index + 1),
                        history::fetched(rest),
                        t.model,
                        options.keep_dirs,
                    ));
                } else {
                    assert(fetched == history::fetched(rest));
                }
            }
        },
        StepView::Done(_) => {
            assert(works =~= seq![pull::pull_work(options, state)]);
            assert(works.skip(1) =~= Seq::empty());
            assert(photos_fetched(works.skip(1)) =~= Seq::empty());
            assert(rest.len() == 0);
            assert(history::fetched(rest) =~= Seq::empty());
            reveal_with_fuel(noted, 2);
            if let PullReplyView::Downloaded(result) = reply {
                assert(fetched =~= seq![result]);
                assert(fetched.skip(1) =~= Seq::empty());
                let left = t.pending.skip(t.index);
                assert(left =~= seq![t.pending[t.index]]);
                assert(photos_fetched(works) =~= left);
                assert(result is Err);
            } else {
                assert(t.pending.skip(t.index + 1) =~= Seq::empty());
                assert(replies[0] == reply);
            }
        },
    }
}

/// Of a whole pull that succeeds: the camera is asked for its description, then for
/// its listing, then the destination is looked at under the key of each file chosen;
/// and then, unless it is a dry run, every file pending is downloaded, once and in
/// order, from where this model serves it to where it belongs below the destination;
/// each that arrives is followed by saving the ledger, which ends up noting it with
/// its size and the camera's model, beside what it had.
pub proof fn lemma_a_pull_fetches_what_is_pending(
    options: OptionsView,
    replies: Seq<PullReplyView>,
    props: PropsView,
    outcome: OutcomeView,
)
    requires
        !options.dry_run,
        replies.len() > 0,
        replies[0] == PullReplyView::Props(Ok(props)),
        history::pulled(options, PullView::Props, replies) == Some(Ok::<_, ErrorView>(outcome)),
    ensures
        ({
            let works = pull_works(options, PullView::Props, replies);
            let pending = history::pending_in(options, replies);
            let chosen = history::chosen_in(options, replies);
            &&& works.len() == replies.len()
            &&& works.len() >= 3
            &&& works[0] is GetProps
            &&& works[1] is GetPhotos
            &&& works[2] matches PullWorkView::Inspect { keys } && keys.len() == chosen.len() && (
            forall|i: int|
                0 <= i < chosen.len() ==> keys[i] == sync::key_of(
                    #[trigger] chosen[i],
                    options.keep_dirs,
                ))
            &&& photos_fetched(works) == pending
            &&& forall|i: int|
                0 <= i < works.len() ==> ((#[trigger] works[i]) matches PullWorkView::Download {
                    photo,
                    target,
                    legacy,
                } ==> legacy == (props.model == "RICOH GR II"@) && target == sync::local(
                    options.dest,
                    photo,
                    options.keep_dirs,
                ))
            &&& forall|i: int|
                0 <= i < works.len() && ((
                #[trigger] replies[i]) matches PullReplyView::Downloaded(Ok(_))) ==> i + 1
                    < works.len() && works[i + 1] is SaveLedger
            &&& history::saves_worked(replies) ==> history::ledger_left(options, replies) == noted(
                history::ledger_found(replies),
                pending,
                history::fetched(replies),
                props.model,
                options.keep_dirs,
            )
            &&& outcome.model == Some(props.model)
            &&& outcome.battery == props.battery
            &&& !outcome.dry_run
        }),
{
    history::lemma_a_whole_pull(options, replies, outcome);
    lemma_three_replies(options, replies, outcome);
    let one = replies.skip(1);
    let two = one.skip(1);
    let three = two.skip(1);
    let listing = PullView::Photos { props };
    let chosen = history::chosen_in(options, replies);
    let pending = history::pending_in(options, replies);
    let found = history::ledger_found(replies);
    let looking = PullView::Inspecting { props, chosen };
    assert(one[0] == replies[1]);
    assert(two[0] == replies[2]);
    let works = pull_works(options, PullView::Props, replies);
    let later = match pull::pull_next(options, looking, replies[2]).1 {
        StepView::More(next) => pull_works(options, next, three),
        StepView::Done(_) => seq![],
    };
    assert(pull_works(options, PullView::Props, replies) =~= seq![
        PullWorkView::GetProps,
    ] + pull_works(options, listing, one));
    assert(pull_works(options, listing, one) =~= seq![PullWorkView::GetPhotos] + pull_works(
        options,
        looking,
        two,
    ));
    assert(pull_works(options, looking, two) =~= seq![pull::pull_work(options, looking)] + later);
    assert(works =~= seq![
        PullWorkView::GetProps,
        PullWorkView::GetPhotos,
        pull::pull_work(options, looking),
    ] + later);
    assert(works.skip(1).skip(1).skip(1) =~= later);
    assert(works.skip(1)[0] is GetPhotos);
    assert(works.skip(1).skip(1)[0] is Inspect);
    assert(photos_fetched(works) == photos_fetched(works.skip(1)));
    assert(photos_fetched(works.skip(1)) == photos_fetched(works.skip(1).skip(1)));
    assert(photos_fetched(works.skip(1).skip(1)) == photos_fetched(later));
    assert(history::fetched(replies) == history::fetched(one));
    assert(history::fetched(one) == history::fetched(two));
    assert(history::fetched(two) == history::fetched(three));
    assert(history::saves_worked(replies) ==> history::saves_worked(three)) by {
        assert forall|i: int| history::saves_worked(replies) && 0 <= i < three.len() implies ((
        #[trigger] three[i]) matches PullReplyView::Saved(saved) ==> saved is Ok) by {
            assert(three[i] == replies[i + 3]);
        }
    }
    let start = PullView::Props;
    assert(history::ledger_kept(options, start, replies, found) == history::ledger_kept(
        options,
        listing,
        one,
        found,
    ));
    assert(history::ledger_kept(options, listing, one, found) == history::ledger_kept(
        options,
        looking,
        two,
        found,
    ));
    if let StepView::More(next) = pull::pull_next(options, looking, replies[2]).1 {
        lemma_downloads(options, next, three, found);
        assert(pending.skip(0) =~= pending);
        assert(forall|i: int| 0 <= i < later.len() ==> works[i + 3] == later[i]);
        assert(forall|i: int| 3 <= i < works.len() ==> works[i] == later[i - 3]);
        assert(forall|i: int| 0 <= i < three.len() ==> replies[i + 3] == three[i]);
        assert forall|i: int|
            0 <= i < works.len() && ((
            #[trigger] replies[i]) matches PullReplyView::Downloaded(Ok(_))) implies i + 1
            < works.len() && works[i + 1] is SaveLedger by {
            if i >= 3 {
                assert(three[i - 3] == replies[i]);
                assert(works[i + 1] == later[i - 2]);
            }
        }
        lemma_outcome_keeps_the_camera(options, next, three);
    } else {
        assert(pending =~= Seq::empty());
        assert(later =~= Seq::empty());
        assert(three.len() == 0);
        assert(history::fetched(three) =~= Seq::empty());
        assert(photos_fetched(later) =~= Seq::empty());
    }
}

/// A pull that succeeds was told what the camera is, what is on its card, and what is
/// at the destination.
proof fn lemma_three_replies(
    options: OptionsView,
    replies: Seq<PullReplyView>,
    outcome: OutcomeView,
)
    requires
        history::pulled(options, PullView::Props, replies) == Some(Ok::<_, ErrorView>(outcome)),
    ensures
        replies.len() >= 3,
        replies[0] matches PullReplyView::Props(Ok(_)),
        replies[1] matches PullReplyView::Photos(Ok(_)),
        replies[2] is Inspected,
        ({
            let looking = PullView::Inspecting {
                props: replies[0]->Props_0->Ok_0,
                chosen: history::chosen_in(options, replies),
            };
            &&& pull::pull_answered(looking, replies[2])
            &&& match pull::pull_next(options, looking, replies[2]).1 {
                StepView::More(next) => history::pulled(
                    options,
                    next,
                    replies.skip(1).skip(1).skip(1),
                ) == Some(Ok::<_, ErrorView>(outcome)),
                StepView::Done(result) => replies.len() == 3 && result == Ok::<_, ErrorView>(
                    outcome,
                ),
            }
        }),
{
    let one = replies.skip(1);
    let next = pull::pull_next(options, PullView::Props, replies[0]).1;
    assert(next is More);
    let second = next->More_0;
    assert(history::pulled(options, second, one) == Some(Ok::<_, ErrorView>(outcome)));
    assert(one[0] == replies[1]);
    let two = one.skip(1);
    let next = pull::pull_next(options, second, one[0]).1;
    assert(next is More);
    let third = next->More_0;
    assert(history::pulled(options, third, two) == Some(Ok::<_, ErrorView>(outcome)));
    assert(two[0] == replies[2]);
}

proof fn lemma_outcome_keeps_the_camera(
    options: OptionsView,
    state: PullView,
    replies: Seq<PullReplyView>,
)
    requires
        history::pulled(options, state, replies) matches Some(Ok(_)),
        state is Downloading || state is Saving,
    ensures
        history::pulled(options, state, replies) matches Some(Ok(outcome)) && {
            let t = history::transfers_in(state);
            &&& outcome.model == t.outcome.model
            &&& outcome.battery == t.outcome.battery
            &&& outcome.dry_run == t.outcome.dry_run
        },
    decreases replies.len(),
{
    if let StepView::More(next) = pull::pull_next(options, state, replies[0]).1 {
        lemma_outcome_keeps_the_camera(options, next, replies.skip(1));
    }
}

/// Of a whole dry run that succeeds: it asks for the camera's description, for the
/// listing and for a look at the destination, and for nothing else; and says of each
/// file chosen whether it would be skipped or downloaded, as a pull would.
pub proof fn lemma_a_dry_run_says_what_a_pull_would_do(
    options: OptionsView,
    replies: Seq<PullReplyView>,
    outcome: OutcomeView,
)
    requires
        options.dry_run,
        history::pulled(options, PullView::Props, replies) == Some(Ok::<_, ErrorView>(outcome)),
    ensures
        replies.len() == 3,
        outcome.downloaded.len() == history::pending_in(options, replies).len(),
        forall|i: int|
            0 <= i < outcome.downloaded.len() ==> #[trigger] outcome.downloaded[i] == sync::key_of(
                history::pending_in(options, replies)[i],
                options.keep_dirs,
            ),
        outcome.skipped == pull::skipped_of(
            history::chosen_in(options, replies),
            history::on_disk_in(replies),
            history::ledger_found(replies),
            options.keep_dirs,
        ),
        outcome.skipped.len() + outcome.downloaded.len() == history::chosen_in(
            options,
            replies,
        ).len(),
        outcome.failed.len() == 0,
        outcome.bytes_written == 0,
        outcome.dry_run,
        outcome.dest == Some(options.dest),
{
    lemma_three_replies(options, replies, outcome);
    pull::lemma_the_plan_is_a_partition(
        history::chosen_in(options, replies),
        history::on_disk_in(replies),
        history::ledger_found(replies),
        options.keep_dirs,
    );
}

spec fn is_before_wifi(state: RunView) -> bool {
    match state {
        RunView::CreatingDest => true,
        RunView::Connecting => true,
        RunView::BringingUp(_) => true,
        _ => false,
    }
}

/// Whether one of the first `n` pieces of work was this one.
pub open spec fn was_asked(works: Seq<RunWorkView>, n: int, work: RunWorkView) -> bool {
    exists|j: int| 0 <= j < n && #[trigger] works[j] == work
}

proof fn lemma_asked_earlier(
    all: Seq<RunWorkView>,
    later: Seq<RunWorkView>,
    i: int,
    work: RunWorkView,
)
    requires
        0 < i <= all.len(),
        all.len() == later.len() + 1,
        forall|j: int| 0 <= j < later.len() ==> all[j + 1] == #[trigger] later[j],
    ensures
        was_asked(later, i - 1, work) ==> was_asked(all, i, work),
{
    if was_asked(later, i - 1, work) {
        let j = choose|j: int| 0 <= j < i - 1 && #[trigger] later[j] == work;
        assert(all[j + 1] == work);
    }
}

proof fn lemma_in_turn(options: OptionsView, state: RunView, replies: Seq<RunReplyView>, i: int)
    requires
        0 <= i < history::works(options, state, replies).len(),
        options.use_ble,
        is_before_wifi(state),
    ensures
        ({
            let works = history::works(options, state, replies);
            let passphrase = RunWorkView::Gatt(GattOp::Read(p::CHAR_PASSPHRASE));
            let battery = RunWorkView::Gatt(GattOp::Read(p::CHAR_BATTERY_LEVEL));
            let mode = RunWorkView::Gatt(GattOp::Read(p::CHAR_OPERATION_MODE));
            let power = RunWorkView::Gatt(GattOp::Read(p::CHAR_CAMERA_POWER));
            &&& works[i] is Wifi || works[i] is PickBackend ==> was_asked(works, i, passphrase)
            &&& works[i] == RunWorkView::Gatt(GattOp::Write(p::CHAR_NETWORK_TYPE, 1)) ==> (
            state matches RunView::BringingUp(BringUpView::Raising { .. })) || was_asked(
                works,
                i,
                battery,
            )
            &&& works[i] == battery ==> (state matches RunView::BringingUp(
                BringUpView::Battery { .. },
            )) || (state matches RunView::BringingUp(
                BringUpView::Waking { wake: Wake::Settle { .. }, .. },
            )) || (state matches RunView::BringingUp(
                BringUpView::Waking { wake: Wake::SwitchOn { .. }, .. },
            )) || was_asked(works, i, power)
            &&& works[i] == power ==> (state matches RunView::BringingUp(
                BringUpView::Waking { wake: Wake::Power { .. }, .. },
            )) || was_asked(works, i, mode)
        }),
    decreases replies.len(),
{
    let all = history::works(options, state, replies);
    let rest = replies.skip(1);
    if i > 0 {
        let next = run::run_next(options, state, replies[0]).1->More_0;
        let later = history::works(options, next, rest);
        assert(all =~= seq![run::run_work(options, state)] + later);
        assert(all[i] == later[i - 1]);
        assert(all[0] == run::run_work(options, state));
        let passphrase = RunWorkView::Gatt(GattOp::Read(p::CHAR_PASSPHRASE));
        let battery = RunWorkView::Gatt(GattOp::Read(p::CHAR_BATTERY_LEVEL));
        let mode = RunWorkView::Gatt(GattOp::Read(p::CHAR_OPERATION_MODE));
        let power = RunWorkView::Gatt(GattOp::Read(p::CHAR_CAMERA_POWER));
        lemma_asked_earlier(all, later, i, passphrase);
        lemma_asked_earlier(all, later, i, battery);
        lemma_asked_earlier(all, later, i, mode);
        lemma_asked_earlier(all, later, i, power);
        if is_before_wifi(next) {
            lemma_in_turn(options, next, rest, i - 1);
        } else {
            assert(next is Disconnecting);
            if next matches RunView::Disconnecting { raised: Err(_) } {
                assert(later.len() <= 1);
                assert(later[0] == RunWorkView::Disconnect);
            } else {
                assert(all[0] == passphrase);
                lemma_no_gatt_reads(options, next, rest, i - 1);
            }
        }
    }
}

/// After Bluetooth has been left, nothing but switching the camera off is asked of it.
proof fn lemma_no_gatt_reads(
    options: OptionsView,
    state: RunView,
    replies: Seq<RunReplyView>,
    i: int,
)
    requires
        0 <= i < history::works(options, state, replies).len(),
        !is_before_wifi(state),
    ensures
        history::works(options, state, replies)[i] matches RunWorkView::Gatt(op) ==> op
            == GattOp::Write(p::CHAR_CAMERA_POWER, 0),
    decreases replies.len(),
{
    let all = history::works(options, state, replies);
    if i > 0 {
        let next = run::run_next(options, state, replies[0]).1->More_0;
        let later = history::works(options, next, replies.skip(1));
        assert(all =~= seq![run::run_work(options, state)] + later);
        lemma_no_gatt_reads(options, next, replies.skip(1), i - 1);
    }
}

/// Of every sync over Bluetooth: nothing is done over Wi-Fi before the camera's
/// passphrase was asked for; its access point is not raised before its battery was
/// asked for, that not before its power was, and that not before its mode.
pub proof fn lemma_everything_in_its_turn(
    options: OptionsView,
    replies: Seq<RunReplyView>,
    i: int,
)
    requires
        options.use_ble,
        0 <= i < history::works(options, run::begun(options).1, replies).len(),
    ensures
        ({
            let works = history::works(options, run::begun(options).1, replies);
            let passphrase = RunWorkView::Gatt(GattOp::Read(p::CHAR_PASSPHRASE));
            let battery = RunWorkView::Gatt(GattOp::Read(p::CHAR_BATTERY_LEVEL));
            let mode = RunWorkView::Gatt(GattOp::Read(p::CHAR_OPERATION_MODE));
            let power = RunWorkView::Gatt(GattOp::Read(p::CHAR_CAMERA_POWER));
            &&& works[i] is Wifi || works[i] is PickBackend ==> was_asked(works, i, passphrase)
            &&& works[i] == RunWorkView::Gatt(GattOp::Write(p::CHAR_NETWORK_TYPE, 1)) ==> was_asked(
                works,
                i,
                battery,
            )
            &&& works[i] == battery ==> was_asked(works, i, power)
            &&& works[i] == power ==> was_asked(works, i, mode)
        }),
{
    lemma_in_turn(options, run::begun(options).1, replies, i);
}

/// Of every sync: the destination is made first, unless it is a dry run, and then the
/// camera is connected to over Bluetooth, or a backend is picked where that is not
/// used.
pub proof fn lemma_how_a_sync_sets_out(options: OptionsView, replies: Seq<RunReplyView>)
    ensures
        ({
            let works = history::works(options, run::begun(options).1, replies);
            let out = if options.dry_run {
                0int
            } else {
                1int
            };
            &&& works.len() > 0 && !options.dry_run ==> works[0] == RunWorkView::CreateFolder(
                options.dest,
            )
            &&& works.len() > out && options.use_ble ==> works[out] == (RunWorkView::Connect {
                address: options.address,
                timeout: options.scan_timeout,
            })
            &&& works.len() > out && !options.use_ble ==> works[out] == RunWorkView::PickBackend(
                options.wifi_backend,
            )
        }),
{
    reveal_with_fuel(history::works, 3);
}

proof fn lemma_low_battery(
    options: OptionsView,
    state: RunView,
    replies: Seq<RunReplyView>,
    i: int,
    raw: Seq<u8>,
    battery: p::BatteryLevel,
)
    requires
        history::ran(options, state, replies) is Some,
        0 <= i < history::works(options, state, replies).len(),
        i < replies.len(),
        history::works(options, state, replies)[i] == RunWorkView::Gatt(
            GattOp::Read(p::CHAR_BATTERY_LEVEL),
        ),
        replies[i] == RunReplyView::Gatt(GattReplyView::Value(Ok(raw))),
        p::battery_value(raw) == Ok::<p::BatteryLevel, ErrorView>(battery),
        battery.source == p::PowerSource::Battery,
        battery.level < options.min_battery,
    ensures
        history::ran(options, state, replies) == Some(
            Err::<OutcomeView, ErrorView>(
                ErrorView::BatteryTooLow { level: battery.level, floor: options.min_battery },
            ),
        ),
        replies.len() == i + 2,
    decreases replies.len(),
{
    let all = history::works(options, state, replies);
    let rest = replies.skip(1);
    if i > 0 {
        let next = run::run_next(options, state, replies[0]).1->More_0;
        let later = history::works(options, next, rest);
        assert(all =~= seq![run::run_work(options, state)] + later);
        assert(rest[i - 1] == replies[i]);
        lemma_low_battery(options, next, rest, i - 1, raw, battery);
    } else {
        assert(state matches RunView::BringingUp(BringUpView::Battery { .. }));
        let next = run::run_next(options, state, replies[0]).1->More_0;
        assert(next is Disconnecting);
        assert(history::ran(options, next, rest) is Some);
        assert(rest.len() == 1);
    }
}

/// Of a whole sync: a camera that says its battery is below the floor, and is not on
/// mains, ends it there: it is hung up on, nothing is done over Wi-Fi, and the sync
/// fails for that reason.
pub proof fn lemma_a_low_battery_ends_the_sync(
    options: OptionsView,
    replies: Seq<RunReplyView>,
    i: int,
    raw: Seq<u8>,
    battery: p::BatteryLevel,
)
    requires
        history::ran(options, run::begun(options).1, replies) is Some,
        0 <= i < history::works(options, run::begun(options).1, replies).len(),
        i < replies.len(),
        history::works(options, run::begun(options).1, replies)[i] == RunWorkView::Gatt(
            GattOp::Read(p::CHAR_BATTERY_LEVEL),
        ),
        replies[i] == RunReplyView::Gatt(GattReplyView::Value(Ok(raw))),
        p::battery_value(raw) == Ok::<p::BatteryLevel, ErrorView>(battery),
        battery.source == p::PowerSource::Battery,
        battery.level < options.min_battery,
    ensures
        history::ran(options, run::begun(options).1, replies) == Some(
            Err::<OutcomeView, ErrorView>(
                ErrorView::BatteryTooLow { level: battery.level, floor: options.min_battery },
            ),
        ),
        replies.len() == i + 2,
{
    lemma_low_battery(options, run::begun(options).1, replies, i, raw, battery);
}

proof fn lemma_waited_for(
    options: OptionsView,
    handoff: Option<HandoffView>,
    state: WifiPhaseView,
    replies: Seq<WifiReplyView>,
)
    requires
        history::wifi_ended(options, handoff, state, replies) is Some,
    ensures
        ({
            let works = history::wifi_works(options, handoff, state, replies);
            &&& works.len() == replies.len()
            &&& works[0] == wifi::wifi_work(options, handoff, state)
            &&& forall|i: int|
                0 <= i < replies.len() && (#[trigger] replies[i]) == WifiReplyView::Up(Ok(()))
                    ==> i + 1 < works.len() && works[i + 1] == WifiWorkView::Pull(
                    PullWorkView::GetProps,
                )
            &&& forall|i: int|
                0 <= i < replies.len() && ((#[trigger] replies[i]) matches WifiReplyView::Up(
                    Err(_),
                )) ==> forall|j: int| i < j < works.len() ==> !((#[trigger] works[j]) is Pull)
            &&& (state is Finishing || state is Restoring) ==> forall|j: int|
                0 <= j < works.len() ==> !((#[trigger] works[j]) is Pull)
        }),
    decreases replies.len(),
{
    let works = history::wifi_works(options, handoff, state, replies);
    let rest = replies.skip(1);
    match wifi::wifi_next(options, handoff, state, replies[0]).1 {
        StepView::More(next) => {
            lemma_waited_for(options, handoff, next, rest);
            let later = history::wifi_works(options, handoff, next, rest);
            assert(works =~= seq![wifi::wifi_work(options, handoff, state)] + later);
            assert(forall|i: int| 0 <= i < later.len() ==> works[i + 1] == later[i]);
            assert(forall|i: int| 1 <= i < works.len() ==> works[i] == later[i - 1]);
            assert(forall|i: int| 1 <= i < replies.len() ==> replies[i] == rest[i - 1]);
            assert forall|i: int|
                0 <= i < replies.len() && (#[trigger] replies[i]) == WifiReplyView::Up(
                    Ok(()),
                ) implies i + 1 < works.len() && works[i + 1] == WifiWorkView::Pull(
                PullWorkView::GetProps,
            ) by {
                if i > 0 {
                    assert(rest[i - 1] == replies[i]);
                }
            }
            assert forall|i: int|
                0 <= i < replies.len() && ((#[trigger] replies[i]) matches WifiReplyView::Up(
                    Err(_),
                )) implies forall|j: int| i < j < works.len() ==> !((
            #[trigger] works[j]) is Pull) by {
                if i > 0 {
                    assert(rest[i - 1] == replies[i]);
                }
            }
        },
        StepView::Done(_) => {
            assert(works =~= seq![wifi::wifi_work(options, handoff, state)]);
        },
    }
}

/// Of a whole Wi-Fi phase: the host's network is asked for first; a host that is not on
/// the camera's network is made to join it, with what the handoff says, and one that
/// is, or has no handoff, goes straight to waiting for the camera; and the pull begins
/// exactly where the camera came up.
pub proof fn lemma_how_a_wifi_phase_goes(
    options: OptionsView,
    handoff: Option<HandoffView>,
    replies: Seq<WifiReplyView>,
)
    requires
        history::wifi_ended(options, handoff, WifiPhaseView::Current, replies) is Some,
    ensures
        ({
            let works = history::wifi_works(options, handoff, WifiPhaseView::Current, replies);
            let home = history::home_network(replies);
            &&& works.len() >= 2
            &&& works[0] is QueryCurrent
            &&& match handoff {
                Some(handoff) => if home.ssid == Some(handoff.ssid) {
                    works[1] == WifiWorkView::WaitUntilUp(options.ap_timeout)
                } else {
                    works[1] == (WifiWorkView::Join {
                        ssid: handoff.ssid,
                        passphrase: handoff.passphrase,
                        interface: options.wifi_interface,
                    })
                },
                None => works[1] == WifiWorkView::WaitUntilUp(options.ap_timeout),
            }
            &&& (works[1] is Join && replies[1] == WifiReplyView::Joined(Ok(()))) ==> works.len()
                > 2 && works[2] == WifiWorkView::WaitUntilUp(options.ap_timeout)
            &&& forall|i: int|
                0 <= i < replies.len() && (#[trigger] replies[i]) == WifiReplyView::Up(Ok(()))
                    ==> i + 1 < works.len() && works[i + 1] == WifiWorkView::Pull(
                    PullWorkView::GetProps,
                )
            &&& forall|i: int|
                0 <= i < replies.len() && ((#[trigger] replies[i]) matches WifiReplyView::Up(
                    Err(_),
                )) ==> forall|j: int| i < j < works.len() ==> !((#[trigger] works[j]) is Pull)
        }),
{
    let start = WifiPhaseView::Current;
    lemma_waited_for(options, handoff, start, replies);
    let one = replies.skip(1);
    let next = wifi::wifi_next(options, handoff, start, replies[0]).1->More_0;
    assert(history::wifi_ended(options, handoff, next, one) is Some);
    lemma_waited_for(options, handoff, next, one);
    let works = history::wifi_works(options, handoff, start, replies);
    let later = history::wifi_works(options, handoff, next, one);
    assert(works =~= seq![wifi::wifi_work(options, handoff, start)] + later);
    assert(works[1] == later[0]);
    assert(one[0] == replies[1]);
    if works[1] is Join && replies[1] == WifiReplyView::Joined(Ok(())) {
        let two = one.skip(1);
        let after = wifi::wifi_next(options, handoff, next, one[0]).1->More_0;
        assert(history::wifi_ended(options, handoff, after, two) is Some);
        lemma_waited_for(options, handoff, after, two);
        let last = history::wifi_works(options, handoff, after, two);
        assert(later =~= seq![wifi::wifi_work(options, handoff, next)] + last);
        assert(works[2] == last[0]);
    }
}

/// What each download is told by: that it is done, under its key and with its size, or
/// that it failed and why; and each that is begun, by its key and its place in the row.
pub proof fn lemma_each_download_is_told(
    options: OptionsView,
    t: TransfersView,
    result: ResultView<u64>,
    saved: ResultView<()>,
)
    requires
        0 <= t.index < t.pending.len(),
    ensures
        ({
            let told = pull::pull_next(
                options,
                PullView::Downloading(t),
                PullReplyView::Downloaded(result),
            ).0;
            let after = pull::pull_next(options, PullView::Saving(t), PullReplyView::Saved(saved)).0;
            let key = sync::key_of(t.pending[t.index], options.keep_dirs);
            let more = t.index + 1 < t.pending.len();
            let next = sync::key_of(t.pending[t.index + 1], options.keep_dirs);
            let begun = pull::start_event(next, t.index + 2, t.pending.len());
            &&& result matches Ok(written) ==> told == seq![pull::finished_event(key, written)]
            &&& result matches Err(error) ==> told[0] == pull::failed_event(key, error)
                && told.len() == if more {
                2nat
            } else {
                1nat
            } && (more ==> told[1] == begun)
            &&& saved is Ok ==> after == if more {
                seq![begun]
            } else {
                Seq::empty()
            }
            &&& saved matches Err(error) ==> after.len() > 0 && after[0]
                == pull::save_failed_event(error) && (more ==> after.len() == 2 && after[1]
                == begun)
        }),
{
}

/// Every event goes by its own name, whatever else it says.
pub proof fn lemma_events_go_by_their_names(
    text: Seq<char>,
    flag: bool,
    number: u64,
    error: ErrorView,
    other: Option<Seq<char>>,
    outcome: OutcomeView,
)
    ensures
        name_of(run::scan_event(other)) == Some("ble.scan"@),
        name_of(run::skipped_event()) == Some("ble.skipped"@),
        name_of(run::disconnected_event()) == Some("ble.disconnected"@),
        name_of(run::powered_off_event()) == Some("ble.powered_off"@),
        name_of(run::power_off_failed_event(error)) == Some("ble.power_off_failed"@),
        name_of(bring_up::awake_event(flag)) == Some("ble.awake"@),
        name_of(bring_up::battery_unavailable_event(error)) == Some("ble.battery.unavailable"@),
        name_of(bring_up::ap_up_event(text)) == Some("ble.ap_up"@),
        name_of(wifi::backend_event(text, flag)) == Some("wifi.backend"@),
        name_of(wifi::join_event(text, other)) == Some("wifi.join"@),
        name_of(wifi::up_event(text)) == Some("http.up"@),
        name_of(wifi::ap_down_event()) == Some("wifi.camera_ap_down"@),
        name_of(wifi::restore_event(other)) == Some("wifi.restore"@),
        name_of(wifi::restore_failed_event(error)) == Some("wifi.restore_failed"@),
        name_of(pull::listed_event(number as nat)) == Some("http.listed"@),
        name_of(pull::plan_event(number as nat, number as nat, number as nat)) == Some("plan"@),
        name_of(pull::start_event(text, number as int, number as nat)) == Some(
            "download.start"@,
        ),
        name_of(pull::finished_event(text, number)) == Some("download.done"@),
        name_of(pull::failed_event(text, error)) == Some("download.failed"@),
        name_of(pull::save_failed_event(error)) == Some("ledger.save_failed"@),
        name_of(sync::done_event(outcome)) == Some("done"@),
{
    sync::lemma_events_name_themselves("done"@, sync::outcome_members(outcome));
    reveal_with_fuel(json::member_from, 2);
}

/// The name that an event gives itself.
pub open spec fn name_of(event: JsonView) -> Option<Seq<char>> {
    json::text_in(json::member(event, "event"@))
}

/// What the events say that are there for programs to read: each of their facts is
/// under its own name.
pub proof fn lemma_what_events_say(
    text: Seq<char>,
    flag: bool,
    written: u64,
    error: ErrorView,
    a: u32,
    b: u32,
    c: u32,
)
    ensures
        json::text_in(json::member(pull::finished_event(text, written), "photo"@)) == Some(text),
        json::member(pull::finished_event(text, written), "bytes"@) == Some(
            JsonView::Number(Some(written as i128)),
        ),
        json::text_in(json::member(pull::failed_event(text, error), "photo"@)) == Some(text),
        json::text_in(json::member(pull::failed_event(text, error), "error"@)) == Some(
            error::error_message(error),
        ),
        json::text_in(json::member(wifi::backend_event(text, flag), "name"@)) == Some(text),
        json::flag_in(json::member(wifi::backend_event(text, flag), "interactive"@)) == Some(flag),
        json::text_in(json::member(wifi::up_event(text), "host"@)) == Some(text),
        json::text_in(json::member(bring_up::battery_unavailable_event(error), "error"@)) == Some(
            error::error_message(error),
        ),
        json::integer_in(
            json::member(pull::plan_event(a as nat, b as nat, c as nat), "selected"@),
        ) == Some(a as i64),
        json::integer_in(json::member(pull::plan_event(a as nat, b as nat, c as nat), "pending"@))
            == Some(b as i64),
        json::integer_in(json::member(pull::plan_event(a as nat, b as nat, c as nat), "skipped"@))
            == Some(c as i64),
        json::text_in(json::member(run::scan_event(Some(text)), "address"@)) == Some(text),
{
    lemma_event_names();
    reveal_with_fuel(json::member_from, 5);
}

proof fn lemma_event_names()
    ensures
        "event"@.len() == 5 && "event"@[0] == 'e' && "event"@[1] == 'v',
        "photo"@.len() == 5 && "photo"@[0] == 'p',
        "bytes"@.len() == 5 && "bytes"@[0] == 'b',
        "error"@.len() == 5 && "error"@[0] == 'e' && "error"@[1] == 'r',
        "name"@.len() == 4 && "name"@[0] == 'n',
        "interactive"@.len() == 11,
        "host"@.len() == 4 && "host"@[0] == 'h',
        "selected"@.len() == 8,
        "pending"@.len() == 7 && "pending"@[0] == 'p',
        "skipped"@.len() == 7 && "skipped"@[0] == 's',
        "address"@.len() == 7 && "address"@[0] == 'a',
{
    reveal_strlit("event");
    reveal_strlit("photo");
    reveal_strlit("bytes");
    reveal_strlit("error");
    reveal_strlit("name");
    reveal_strlit("interactive");
    reveal_strlit("host");
    reveal_strlit("selected");
    reveal_strlit("pending");
    reveal_strlit("skipped");
    reveal_strlit("address");
}

/// The reason for which a reply fails a sync, where it is one that does: no backend, a
/// join that did not work, or a camera that did not come up.
pub open spec fn failure_in(reply: RunReplyView) -> Option<ErrorView> {
    match reply {
        RunReplyView::Backend(Err(error)) => Some(error),
        RunReplyView::Wifi(WifiReplyView::Joined(Err(error))) => Some(error),
        RunReplyView::Wifi(WifiReplyView::Up(Err(error))) => Some(error),
        _ => None,
    }
}

proof fn lemma_failure(
    options: OptionsView,
    state: RunView,
    replies: Seq<RunReplyView>,
    i: int,
    error: ErrorView,
)
    requires
        history::ran(options, state, replies) is Some,
        0 <= i < replies.len(),
        failure_in(replies[i]) == Some(error),
    ensures
        history::ran(options, state, replies) == Some(Err::<OutcomeView, ErrorView>(error)),
    decreases replies.len(),
{
    let rest = replies.skip(1);
    if i > 0 {
        let next = run::run_next(options, state, replies[0]).1;
        assert(next is More);
        assert(rest[i - 1] == replies[i]);
        lemma_failure(options, next->More_0, rest, i - 1, error);
    } else {
        match run::run_next(options, state, replies[0]).1 {
            StepView::More(next) => {
                assert(result_held(next) == Some(Err::<OutcomeView, ErrorView>(error)));
                lemma_result(options, next, rest);
            },
            StepView::Done(_) => {},
        }
    }
}

/// Of a whole sync: where no backend can be had, or the host cannot join, or the camera
/// does not come up, the sync fails for that reason, after everything has been put
/// back.
pub proof fn lemma_a_sync_fails_for_its_reason(
    options: OptionsView,
    replies: Seq<RunReplyView>,
    i: int,
    error: ErrorView,
)
    requires
        history::ran(options, run::begun(options).1, replies) is Some,
        0 <= i < replies.len(),
        failure_in(replies[i]) == Some(error),
    ensures
        history::ran(options, run::begun(options).1, replies) == Some(
            Err::<OutcomeView, ErrorView>(error),
        ),
{
    lemma_failure(options, run::begun(options).1, replies, i, error);
}

/// A pull fails as it was told: by why the camera could not be asked for its
/// description, or for its listing. A Bluetooth phase that failed is handed on as it
/// failed, once the camera was hung up on.
pub proof fn lemma_failures_are_handed_on(
    options: OptionsView,
    props: PropsView,
    error: ErrorView,
    state: BringUpView,
    reply: GattReplyView,
)
    ensures
        pull::pull_next(options, PullView::Props, PullReplyView::Props(Err(error))).1 == StepView::<
            PullView,
            OutcomeView,
        >::Done(Err(error)),
        pull::pull_next(
            options,
            PullView::Photos { props },
            PullReplyView::Photos(Err(error)),
        ).1 == StepView::<PullView, OutcomeView>::Done(Err(error)),
        bring_up::bring_up_next(options, state, reply).1 == StepView::<
            BringUpView,
            HandoffView,
        >::Done(Err(error)) ==> run::run_next(
            options,
            RunView::BringingUp(state),
            RunReplyView::Gatt(reply),
        ).1 == StepView::<RunView, OutcomeView>::More(
            RunView::Disconnecting { raised: Err(error) },
        ),
        run::run_next(
            options,
            RunView::Disconnecting { raised: Err(error) },
            RunReplyView::Disconnected,
        ).1 == StepView::<RunView, OutcomeView>::Done(Err(error)),
{
}

} // verus!
