//! Whole syncs, from their first reply to their last, and what holds of them.

use crate::ble;
use crate::ble::{GattOp, GattReplyView, Wake};
use crate::camera;
use crate::camera::PhotoView;
use crate::error;
use crate::error::{ErrorView, ResultView};
use crate::json::JsonView;
use crate::netlink;
use crate::netlink::WifiStateView;
use crate::procedure::StepView;
use crate::protocol as p;
use crate::state;
use crate::state::EntryView;
use crate::sync;
use crate::sync::bring_up;
use crate::sync::bring_up::{BringUpView, HandoffView};
use crate::sync::pull;
use crate::sync::pull::{PullReplyView, PullView, TransfersView};
use crate::sync::run;
use crate::sync::run::{RunReplyView, RunView, RunWorkView};
use crate::sync::wifi;
use crate::sync::wifi::{WifiPhaseView, WifiReplyView, WifiWorkView};
use crate::sync::{FailureView, OptionsView, OutcomeView};
use vstd::prelude::*;

verus! {

// Pulling.
/// What a pull that gets these replies comes to; nothing where they are not the
/// replies of a whole pull.
pub open spec fn pulled(
    options: OptionsView,
    state: PullView,
    replies: Seq<PullReplyView>,
) -> Option<ResultView<OutcomeView>>
    decreases replies.len(),
{
    if replies.len() == 0 || !pull::pull_answered(state, replies[0]) {
        None
    } else {
        match pull::pull_next(options, state, replies[0]).1 {
            StepView::More(next) => pulled(options, next, replies.skip(1)),
            StepView::Done(result) => if replies.len() == 1 {
                Some(result)
            } else {
                None
            },
        }
    }
}

/// What the ledger's file holds after these replies, where it held `kept`
/// before: what was last saved to it.
pub open spec fn ledger_kept(
    options: OptionsView,
    state: PullView,
    replies: Seq<PullReplyView>,
    kept: Map<Seq<char>, EntryView>,
) -> Map<Seq<char>, EntryView>
    decreases replies.len(),
{
    if replies.len() == 0 {
        kept
    } else {
        let after = match (state, replies[0]) {
            (PullView::Saving(t), PullReplyView::Saved(Ok(_))) => t.ledger,
            _ => kept,
        };
        match pull::pull_next(options, state, replies[0]).1 {
            StepView::More(next) => ledger_kept(options, next, replies.skip(1), after),
            StepView::Done(_) => after,
        }
    }
}

/// Whether every attempt to save the ledger worked.
pub open spec fn saves_worked(replies: Seq<PullReplyView>) -> bool {
    forall|i: int|
        0 <= i < replies.len() ==> ((#[trigger] replies[i]) matches PullReplyView::Saved(saved)
            ==> saved is Ok)
}

/// Whether transfers have recorded what they downloaded, and nothing else,
/// beside what the ledger had at first.
pub open spec fn recorded(t: TransfersView, first: Set<Seq<char>>) -> bool {
    t.ledger.dom() == first.union(t.outcome.downloaded.to_set())
}

/// What came of the downloads, in order.
pub open spec fn fetched(replies: Seq<PullReplyView>) -> Seq<ResultView<u64>>
    decreases replies.len(),
{
    if replies.len() == 0 {
        seq![]
    } else {
        match replies[0] {
            PullReplyView::Downloaded(result) => seq![result] + fetched(replies.skip(1)),
            _ => fetched(replies.skip(1)),
        }
    }
}

/// The keys of the files that arrived, in the order of those pending, where the
/// downloads of the first so many came to these results.
pub open spec fn arrivals(
    pending: Seq<PhotoView>,
    results: Seq<ResultView<u64>>,
    keep_dirs: bool,
) -> Seq<Seq<char>>
    decreases results.len(),
{
    if results.len() == 0 {
        seq![]
    } else {
        let before = arrivals(pending, results.drop_last(), keep_dirs);
        match results.last() {
            Ok(_) => before.push(sync::key_of(pending[results.len() - 1], keep_dirs)),
            Err(_) => before,
        }
    }
}

/// The files that failed, and why, in the order of those pending.
pub open spec fn misses(
    pending: Seq<PhotoView>,
    results: Seq<ResultView<u64>>,
    keep_dirs: bool,
) -> Seq<FailureView>
    decreases results.len(),
{
    if results.len() == 0 {
        seq![]
    } else {
        let before = misses(pending, results.drop_last(), keep_dirs);
        match results.last() {
            Ok(_) => before,
            Err(error) => before.push(
                FailureView {
                    photo: sync::key_of(pending[results.len() - 1], keep_dirs),
                    error: error::error_message(error),
                },
            ),
        }
    }
}

/// How many bytes arrived.
pub open spec fn bytes_fetched(results: Seq<ResultView<u64>>) -> int
    decreases results.len(),
{
    if results.len() == 0 {
        0
    } else {
        bytes_fetched(results.drop_last()) + match results.last() {
            Ok(written) => written as int,
            Err(_) => 0,
        }
    }
}

/// Whether an outcome tells what the downloads came to.
pub open spec fn tells(
    outcome: OutcomeView,
    pending: Seq<PhotoView>,
    results: Seq<ResultView<u64>>,
    keep_dirs: bool,
) -> bool {
    &&& outcome.downloaded == arrivals(pending, results, keep_dirs)
    &&& outcome.failed == misses(pending, results, keep_dirs)
    &&& outcome.bytes_written == bytes_fetched(results)
}

proof fn lemma_transfers_in_order(
    options: OptionsView,
    state: PullView,
    replies: Seq<PullReplyView>,
    done: Seq<ResultView<u64>>,
)
    requires
        pulled(options, state, replies) matches Some(Ok(_)),
        match state {
            PullView::Downloading(t) => t.index < t.pending.len() && done.len() == t.index,
            PullView::Saving(t) => t.index < t.pending.len() && done.len() == t.index + 1,
            _ => false,
        },
        tells(
            transfers_in(state).outcome,
            transfers_in(state).pending,
            done,
            options.keep_dirs,
        ),
    ensures
        pulled(options, state, replies) matches Some(Ok(outcome)) && {
            let results = done + fetched(replies);
            &&& results.len() == transfers_in(state).pending.len()
            &&& tells(outcome, transfers_in(state).pending, results, options.keep_dirs)
        },
    decreases replies.len(),
{
    let reply = replies[0];
    let rest = replies.skip(1);
    match (state, reply) {
        (PullView::Downloading(t), PullReplyView::Downloaded(result)) => {
            let more = done.push(result);
            assert(more.drop_last() =~= done);
            assert(done + fetched(replies) =~= more + fetched(rest));
            match result {
                Ok(written) => {
                    let after = pull::arrived(options, t, written);
                    assert(tells(after.outcome, t.pending, more, options.keep_dirs));
                    lemma_transfers_in_order(options, PullView::Saving(after), rest, more);
                },
                Err(error) => {
                    let after = pull::passed_over(options, t, error);
                    assert(tells(after.outcome, t.pending, more, options.keep_dirs));
                    if after.index < after.pending.len() {
                        lemma_transfers_in_order(options, PullView::Downloading(after), rest, more);
                    } else {
                        assert(more + fetched(rest) =~= more);
                    }
                },
            }
        },
        (PullView::Saving(t), PullReplyView::Saved(_)) => {
            let after = TransfersView { index: t.index + 1, ..t };
            assert(done + fetched(replies) == done + fetched(rest));
            if after.index < after.pending.len() {
                lemma_transfers_in_order(options, PullView::Downloading(after), rest, done);
            } else {
                assert(done + fetched(rest) =~= done);
            }
        },
        _ => {},
    }
}

proof fn lemma_transfers(
    options: OptionsView,
    state: PullView,
    replies: Seq<PullReplyView>,
    kept: Map<Seq<char>, EntryView>,
    first: Set<Seq<char>>,
)
    requires
        pulled(options, state, replies) matches Some(Ok(_)),
        pull::in_order(options, state),
        state is Downloading || state is Saving,
        recorded(transfers_in(state), first),
    ensures
        pulled(options, state, replies) matches Some(Ok(outcome)) && {
            &&& saves_worked(replies) && (state matches PullView::Downloading(t) ==> kept.dom()
                == t.ledger.dom()) ==> ledger_kept(options, state, replies, kept).dom()
                == first.union(outcome.downloaded.to_set())
            &&& outcome.downloaded.to_multiset().add(pull::failures(outcome).to_multiset())
                == pull::keys(transfers_in(state).pending, options.keep_dirs).to_multiset()
            &&& outcome.skipped == transfers_in(state).outcome.skipped
            &&& outcome.dest == transfers_in(state).outcome.dest
        },
    decreases replies.len(),
{
    let reply = replies[0];
    pull::lemma_every_file_is_accounted_for(options, state, reply);
    assert(saves_worked(replies) ==> saves_worked(replies.skip(1))) by {
        assert forall|i: int| saves_worked(replies) && 0 <= i < replies.skip(1).len() implies ((
        #[trigger] replies.skip(1)[i]) matches PullReplyView::Saved(saved) ==> saved is Ok) by {
            assert(replies.skip(1)[i] == replies[i + 1]);
        }
    }
    match (state, reply) {
        (PullView::Downloading(t), PullReplyView::Downloaded(Ok(written))) => {
            let after = pull::arrived(options, t, written);
            let key = sync::key_of(t.pending[t.index], options.keep_dirs);
            assert(after.outcome.downloaded.to_set() =~= t.outcome.downloaded.to_set().insert(key))
                by {
                lemma_push_to_set(t.outcome.downloaded, key);
            }
            assert(after.ledger.dom() =~= first.union(after.outcome.downloaded.to_set()));
            lemma_transfers(options, PullView::Saving(after), replies.skip(1), kept, first);
        },
        (PullView::Downloading(t), PullReplyView::Downloaded(Err(error))) => {
            let after = pull::passed_over(options, t, error);
            if after.index < after.pending.len() {
                lemma_transfers(
                    options,
                    PullView::Downloading(after),
                    replies.skip(1),
                    kept,
                    first,
                );
            }
        },
        (PullView::Saving(t), PullReplyView::Saved(saved)) => {
            let after = TransfersView { index: t.index + 1, ..t };
            let left = if saved is Ok {
                t.ledger
            } else {
                kept
            };
            assert(saves_worked(replies) ==> saved is Ok);
            if after.index < after.pending.len() {
                lemma_transfers(
                    options,
                    PullView::Downloading(after),
                    replies.skip(1),
                    left,
                    first,
                );
            }
        },
        _ => {},
    }
}

/// The transfers of a state that has any.
pub open spec fn transfers_in(state: PullView) -> TransfersView {
    match state {
        PullView::Downloading(t) => t,
        PullView::Saving(t) => t,
        _ => arbitrary(),
    }
}

proof fn lemma_push_to_set<T>(s: Seq<T>, item: T)
    ensures
        s.push(item).to_set() == s.to_set().insert(item),
{
    assert forall|x: T| s.push(item).to_set().contains(x) <==> s.to_set().insert(item).contains(
        x,
    ) by {
        if s.to_set().insert(item).contains(x) {
            if x == item {
                assert(s.push(item)[s.len() as int] == item);
            } else {
                let i = choose|i: int| 0 <= i < s.len() && s[i] == x;
                assert(s.push(item)[i] == x);
            }
        }
    }
    assert(s.push(item).to_set() =~= s.to_set().insert(item));
}

/// The files that a pull chose from the listing it got.
pub open spec fn chosen_in(options: OptionsView, replies: Seq<PullReplyView>) -> Seq<PhotoView> {
    match replies[1] {
        PullReplyView::Photos(Ok(all)) => camera::selection(all, options.filter()),
        _ => seq![],
    }
}

/// The ledger that a pull found.
pub open spec fn ledger_found(replies: Seq<PullReplyView>) -> Map<Seq<char>, EntryView> {
    match replies[2] {
        PullReplyView::Inspected { entries, .. } => pull::ledger_of(entries),
        _ => Map::empty(),
    }
}

/// Which of the files chosen a pull found on disk.
pub open spec fn on_disk_in(replies: Seq<PullReplyView>) -> Seq<bool> {
    match replies[2] {
        PullReplyView::Inspected { on_disk, .. } => on_disk,
        _ => seq![],
    }
}

/// The files that a pull set out to download.
pub open spec fn pending_in(options: OptionsView, replies: Seq<PullReplyView>) -> Seq<PhotoView> {
    pull::pending_of(
        chosen_in(options, replies),
        on_disk_in(replies),
        ledger_found(replies),
        options.keep_dirs,
    )
}

/// What the ledger's file holds after a whole pull.
pub open spec fn ledger_left(options: OptionsView, replies: Seq<PullReplyView>) -> Map<
    Seq<char>,
    EntryView,
> {
    ledger_kept(options, PullView::Props, replies, ledger_found(replies))
}

/// A pull that succeeds has got the camera's description, the listing, and a
/// look at the destination, in this order.
proof fn lemma_a_pull_begins(
    options: OptionsView,
    replies: Seq<PullReplyView>,
    outcome: OutcomeView,
)
    requires
        pulled(options, PullView::Props, replies) == Some(Ok::<_, ErrorView>(outcome)),
    ensures
        replies.len() >= 3,
        replies[0] matches PullReplyView::Props(Ok(_)),
        replies[1] matches PullReplyView::Photos(Ok(_)),
        replies[2] is Inspected,
        on_disk_in(replies).len() == chosen_in(options, replies).len(),
        ({
            let looking = PullView::Inspecting {
                props: replies[0]->Props_0->Ok_0,
                chosen: chosen_in(options, replies),
            };
            let found = ledger_found(replies);
            match pull::pull_next(options, looking, replies[2]).1 {
                StepView::More(next) => {
                    &&& pulled(options, next, replies.skip(3)) == Some(Ok::<_, ErrorView>(outcome))
                    &&& ledger_left(options, replies) == ledger_kept(
                        options,
                        next,
                        replies.skip(3),
                        found,
                    )
                },
                StepView::Done(result) => {
                    &&& replies.len() == 3
                    &&& result == Ok::<_, ErrorView>(outcome)
                    &&& ledger_left(options, replies) == found
                },
            }
        }),
{
    let found = ledger_found(replies);
    let one = replies.skip(1);
    let next = pull::pull_next(options, PullView::Props, replies[0]).1;
    assert(next is More);
    let second = next->More_0;
    assert(pulled(options, second, one) == Some(Ok::<_, ErrorView>(outcome)));
    assert(one[0] == replies[1]);
    let two = one.skip(1);
    assert(two =~= replies.skip(2));
    let next = pull::pull_next(options, second, one[0]).1;
    assert(next is More);
    let third = next->More_0;
    assert(pulled(options, third, two) == Some(Ok::<_, ErrorView>(outcome)));
    assert(two[0] == replies[2]);
    assert(two.skip(1) =~= replies.skip(3));
    assert(ledger_kept(options, PullView::Props, replies, found) == ledger_kept(
        options,
        second,
        one,
        found,
    ));
    assert(ledger_kept(options, second, one, found) == ledger_kept(options, third, two, found));
}

proof fn lemma_fetched_after(replies: Seq<PullReplyView>)
    requires
        replies.len() >= 3,
        !(replies[0] is Downloaded) && !(replies[1] is Downloaded) && !(
        replies[2] is Downloaded),
    ensures
        fetched(replies) == fetched(replies.skip(3)),
{
    reveal_with_fuel(fetched, 4);
    assert(replies.skip(1)[0] == replies[1]);
    assert(replies.skip(1).skip(1) =~= replies.skip(2));
    assert(replies.skip(2)[0] == replies[2]);
    assert(replies.skip(2).skip(1) =~= replies.skip(3));
}

/// Of a whole pull: everything chosen is skipped, downloaded or failed, each
/// file once; what was pending was tried in order, and what came of it is told in
/// that order, with the bytes that arrived; and where it could be saved, the ledger
/// ends up with what it had and what was downloaded.
pub proof fn lemma_a_whole_pull(
    options: OptionsView,
    replies: Seq<PullReplyView>,
    outcome: OutcomeView,
)
    requires
        !options.dry_run,
        pulled(options, PullView::Props, replies) == Some(Ok::<_, ErrorView>(outcome)),
    ensures
        fetched(replies).len() == pending_in(options, replies).len(),
        tells(outcome, pending_in(options, replies), fetched(replies), options.keep_dirs),
        outcome.skipped == pull::skipped_of(
            chosen_in(options, replies),
            on_disk_in(replies),
            ledger_found(replies),
            options.keep_dirs,
        ),
        outcome.skipped.to_multiset().add(outcome.downloaded.to_multiset()).add(
            pull::failures(outcome).to_multiset(),
        ) == pull::keys(chosen_in(options, replies), options.keep_dirs).to_multiset(),
        outcome.downloaded.to_multiset().add(pull::failures(outcome).to_multiset())
            == pull::keys(pending_in(options, replies), options.keep_dirs).to_multiset(),
        saves_worked(replies) ==> ledger_left(options, replies).dom() == ledger_found(
            replies,
        ).dom().union(outcome.downloaded.to_set()),
        outcome.dest == Some(options.dest),
{
    lemma_a_pull_begins(options, replies, outcome);
    let three = replies.skip(3);
    let props = replies[0]->Props_0->Ok_0;
    let found = ledger_found(replies);
    let chosen = chosen_in(options, replies);
    let pending = pending_in(options, replies);
    let looking = PullView::Inspecting { props, chosen };
    pull::lemma_the_plan_is_a_partition(chosen, on_disk_in(replies), found, options.keep_dirs);
    pull::lemma_every_file_is_accounted_for(options, looking, replies[2]);
    let t = TransfersView {
        model: props.model,
        legacy: props.is_legacy_path(),
        pending,
        index: 0,
        ledger: found,
        file: state::ledger_path(options.dest),
        outcome: pull::planned(
            options,
            props,
            pull::skipped_of(chosen, on_disk_in(replies), found, options.keep_dirs),
        ),
    };
    lemma_fetched_after(replies);
    assert(Seq::<Seq<char>>::empty().to_set() =~= Set::empty());
    assert(found.dom() =~= found.dom().union(Seq::<Seq<char>>::empty().to_set()));
    if pending.len() > 0 {
        assert(t.outcome.downloaded.to_set() =~= Set::empty());
        assert(recorded(t, found.dom()));
        assert(saves_worked(replies) ==> saves_worked(three)) by {
            assert forall|i: int| saves_worked(replies) && 0 <= i < three.len() implies ((
            #[trigger] three[i]) matches PullReplyView::Saved(saved) ==> saved is Ok) by {
                assert(three[i] == replies[i + 3]);
            }
        }
        lemma_transfers(options, PullView::Downloading(t), three, found, found.dom());
        let none = Seq::<ResultView<u64>>::empty();
        lemma_transfers_in_order(options, PullView::Downloading(t), three, none);
        assert(none + fetched(three) =~= fetched(three));
    } else {
        broadcast use vstd::seq_lib::group_to_multiset_ensures;

        assert(pull::keys(pending, options.keep_dirs) =~= Seq::empty());
        assert(pull::failures(outcome) =~= Seq::empty());
        assert(outcome.downloaded =~= Seq::empty());
    }
    assert(outcome.skipped.to_multiset().add(outcome.downloaded.to_multiset()).add(
        pull::failures(outcome).to_multiset(),
    ) =~= outcome.skipped.to_multiset().add(
        outcome.downloaded.to_multiset().add(pull::failures(outcome).to_multiset()),
    ));
}

/// Of two pulls over the same files, the second sets out to download only what
/// failed in the first, and nothing where nothing did; even where what was
/// downloaded has been moved away in the meantime. Only a file that the first
/// found on disk, and not in the ledger, has to be there still.
pub proof fn lemma_only_failures_are_retried(
    options: OptionsView,
    replies: Seq<PullReplyView>,
    outcome: OutcomeView,
    later: Seq<PullReplyView>,
)
    requires
        !options.dry_run,
        pulled(options, PullView::Props, replies) == Some(Ok::<_, ErrorView>(outcome)),
        saves_worked(replies),
        chosen_in(options, later) == chosen_in(options, replies),
        ledger_found(later) == ledger_left(options, replies),
        on_disk_in(later).len() == on_disk_in(replies).len(),
        forall|i: int|
            0 <= i < on_disk_in(replies).len() && on_disk_in(replies)[i] && !ledger_found(
                replies,
            ).contains_key(sync::key_of(chosen_in(options, replies)[i], options.keep_dirs))
                ==> #[trigger] on_disk_in(later)[i],
    ensures
        forall|i: int|
            0 <= i < pending_in(options, later).len() ==> pull::failures(outcome).contains(
                sync::key_of(#[trigger] pending_in(options, later)[i], options.keep_dirs),
            ),
        outcome.failed.len() == 0 ==> pending_in(options, later).len() == 0,
{
    lemma_a_pull_begins(options, replies, outcome);
    lemma_a_whole_pull(options, replies, outcome);
    let chosen = chosen_in(options, replies);
    let first = pending_in(options, replies);
    let second = pending_in(options, later);
    let keep_dirs = options.keep_dirs;
    assert forall|i: int| 0 <= i < second.len() implies pull::failures(outcome).contains(
        sync::key_of(#[trigger] second[i], keep_dirs),
    ) by {
        let key = sync::key_of(second[i], keep_dirs);
        lemma_pending(chosen, on_disk_in(later), ledger_found(later), keep_dirs);
        lemma_pending(chosen, on_disk_in(replies), ledger_found(replies), keep_dirs);
        let at = choose|at: int|
            0 <= at < chosen.len() && chosen[at] == second[i] && !on_disk_in(later)[at];
        assert(!ledger_found(later).contains_key(key));
        assert(!ledger_found(replies).dom().contains(key));
        assert(!outcome.downloaded.to_set().contains(key));
        assert(on_disk_in(later)[at] || !on_disk_in(replies)[at]);
        assert(first.contains(chosen[at]));
        let j = first.index_of(chosen[at]);
        assert(pull::keys(first, keep_dirs)[j] == key);
        broadcast use vstd::seq_lib::group_to_multiset_ensures;

        assert(pull::keys(first, keep_dirs).contains(key));
        assert(pull::keys(first, keep_dirs).to_multiset().count(key) > 0);
        assert(outcome.downloaded.to_multiset().count(key) == 0) by {
            assert(!outcome.downloaded.contains(key));
        }
        assert(pull::failures(outcome).to_multiset().count(key) > 0);
    }
    if outcome.failed.len() == 0 && second.len() > 0 {
        assert(pull::failures(outcome).contains(sync::key_of(second[0], keep_dirs)));
    }
}

/// What is pending of the files chosen is what is neither on disk nor in the
/// ledger.
proof fn lemma_pending(
    chosen: Seq<PhotoView>,
    on_disk: Seq<bool>,
    ledger: Map<Seq<char>, EntryView>,
    keep_dirs: bool,
)
    ensures
        ({
            let pending = pull::pending_of(chosen, on_disk, ledger, keep_dirs);
            &&& forall|j: int|
                0 <= j < pending.len() ==> !ledger.contains_key(
                    sync::key_of(#[trigger] pending[j], keep_dirs),
                ) && exists|i: int|
                    0 <= i < chosen.len() && chosen[i] == pending[j] && !on_disk[i]
            &&& forall|i: int|
                0 <= i < chosen.len() && !on_disk[i] && !ledger.contains_key(
                    sync::key_of(chosen[i], keep_dirs),
                ) ==> pending.contains(#[trigger] chosen[i])
        }),
    decreases chosen.len(),
{
    if chosen.len() > 0 {
        let rest = chosen.drop_last();
        lemma_pending(rest, on_disk, ledger, keep_dirs);
        let before = pull::pending_of(rest, on_disk, ledger, keep_dirs);
        let pending = pull::pending_of(chosen, on_disk, ledger, keep_dirs);
        let last = chosen.len() - 1;
        assert forall|j: int| 0 <= j < pending.len() implies !ledger.contains_key(
            sync::key_of(#[trigger] pending[j], keep_dirs),
        ) && exists|i: int| 0 <= i < chosen.len() && chosen[i] == pending[j] && !on_disk[i] by {
            if j < before.len() {
                assert(pending[j] == before[j]);
                let i = choose|i: int| 0 <= i < rest.len() && rest[i] == before[j] && !on_disk[i];
                assert(chosen[i] == pending[j]);
            } else {
                assert(chosen[last] == pending[j]);
            }
        }
        assert forall|i: int|
            0 <= i < chosen.len() && !on_disk[i] && !ledger.contains_key(
                sync::key_of(chosen[i], keep_dirs),
            ) implies pending.contains(#[trigger] chosen[i]) by {
            if i < last {
                assert(rest[i] == chosen[i]);
                let j = before.index_of(rest[i]);
                assert(pending[j] == chosen[i]);
            } else {
                assert(pending[before.len() as int] == chosen[i]);
            }
        }
    }
}

// The Wi-Fi phase.
/// What the Wi-Fi phase comes to where it gets these replies; nothing where they
/// are not the replies of a whole phase.
pub open spec fn wifi_ended(
    options: OptionsView,
    handoff: Option<HandoffView>,
    state: WifiPhaseView,
    replies: Seq<WifiReplyView>,
) -> Option<ResultView<OutcomeView>>
    decreases replies.len(),
{
    if replies.len() == 0 || !wifi::wifi_answered(state, replies[0]) {
        None
    } else {
        match wifi::wifi_next(options, handoff, state, replies[0]).1 {
            StepView::More(next) => wifi_ended(options, handoff, next, replies.skip(1)),
            StepView::Done(result) => if replies.len() == 1 {
                Some(result)
            } else {
                None
            },
        }
    }
}

/// What the Wi-Fi phase asks for on the way, a piece of work for each reply.
pub open spec fn wifi_works(
    options: OptionsView,
    handoff: Option<HandoffView>,
    state: WifiPhaseView,
    replies: Seq<WifiReplyView>,
) -> Seq<WifiWorkView>
    decreases replies.len(),
{
    if replies.len() == 0 {
        seq![]
    } else {
        seq![wifi::wifi_work(options, handoff, state)] + match wifi::wifi_next(
            options,
            handoff,
            state,
            replies[0],
        ).1 {
            StepView::More(next) => wifi_works(options, handoff, next, replies.skip(1)),
            StepView::Done(_) => seq![],
        }
    }
}

/// Whether the host was made to join the camera's network, whether or not that
/// worked.
pub open spec fn has_joined(replies: Seq<WifiReplyView>) -> bool {
    exists|i: int|
        0 <= i < replies.len() && (#[trigger] replies[i]) is Joined
}

/// What the host was on at first, as far as could be told.
pub open spec fn home_network(replies: Seq<WifiReplyView>) -> WifiStateView {
    match replies[0] {
        WifiReplyView::Current(Ok(state)) => state,
        _ => netlink::no_association(),
    }
}

/// Whether the works of a phase take down what was put up: the access point is
/// dropped where Bluetooth raised it, the host is put back to `home` where it
/// was `moved`, and both come last, in this order.
pub open spec fn takes_down(
    works: Seq<WifiWorkView>,
    raised: bool,
    moved: bool,
    home: Option<WifiStateView>,
) -> bool {
    let last = works.len() - 1;
    let before = if moved {
        last - 1
    } else {
        last
    };
    &&& moved <==> works[last] is Restore
    &&& works[last] matches WifiWorkView::Restore(state) ==> (home is Some ==> Some(state) == home)
    &&& forall|i: int| 0 <= i < last ==> !((#[trigger] works[i]) is Restore)
    &&& raised ==> before >= 0 && works[before] == WifiWorkView::FinishWlan
    &&& forall|i: int|
        0 <= i < works.len() && (#[trigger] works[i]) is FinishWlan ==> raised && i == before
}

proof fn lemma_phase(
    options: OptionsView,
    handoff: Option<HandoffView>,
    state: WifiPhaseView,
    replies: Seq<WifiReplyView>,
)
    requires
        wifi_ended(options, handoff, state, replies) is Some,
        handoff is None ==> wifi::keeps_off(state),
    ensures
        ({
            let works = wifi_works(options, handoff, state, replies);
            &&& works.len() == replies.len()
            &&& takes_down(
                works,
                handoff is Some && !(state is Restoring),
                wifi::moved(state) || has_joined(replies),
                wifi::origin(state),
            )
        }),
        handoff is None ==> !has_joined(replies),
    decreases replies.len(),
{
    let reply = replies[0];
    let rest = replies.skip(1);
    let works = wifi_works(options, handoff, state, replies);
    let step = wifi::wifi_next(options, handoff, state, reply).1;
    wifi::lemma_the_host_is_put_back(options, handoff, state, reply);
    if handoff is None {
        wifi::lemma_without_ble_nothing_is_touched(options, state, reply);
    } else if !(state is Finishing) && !(state is Restoring) {
        wifi::lemma_the_access_point_goes_first(options, handoff, state, reply);
    }
    assert(has_joined(replies) <==> reply is Joined || has_joined(rest)) by {
        if has_joined(rest) {
            let i = choose|i: int|
                0 <= i < rest.len() && (#[trigger] rest[i]) is Joined;
            assert(replies[i + 1] == rest[i]);
        }
        if has_joined(replies) {
            let i = choose|i: int|
                0 <= i < replies.len() && (#[trigger] replies[i]) is Joined;
            if i > 0 {
                assert(rest[i - 1] == replies[i]);
            }
        }
    }
    match step {
        StepView::More(next) => {
            lemma_phase(options, handoff, next, rest);
            let later = wifi_works(options, handoff, next, rest);
            assert(forall|i: int| 0 <= i < later.len() ==> works[i + 1] == later[i]);
            assert(forall|i: int| 1 <= i < works.len() ==> works[i] == later[i - 1]);
        },
        StepView::Done(_) => {
            assert(rest.len() == 0);
            assert(!has_joined(rest));
        },
    }
}

/// Of a whole Wi-Fi phase, however it ends: where the host was made to join the
/// camera's network, even in vain, the last thing done is to put it back to where it
/// was, and otherwise its network is not restored; where Bluetooth raised the camera's access point
/// it is dropped, once, right before that.
pub proof fn lemma_a_whole_wifi_phase(
    options: OptionsView,
    handoff: Option<HandoffView>,
    replies: Seq<WifiReplyView>,
)
    requires
        wifi_ended(options, handoff, WifiPhaseView::Current, replies) is Some,
    ensures
        takes_down(
            wifi_works(options, handoff, WifiPhaseView::Current, replies),
            handoff is Some,
            has_joined(replies),
            Some(home_network(replies)),
        ),
        handoff is None ==> !has_joined(replies),
{
    lemma_phase(options, handoff, WifiPhaseView::Current, replies);
    let start = WifiPhaseView::Current;
    let next = wifi::wifi_next(options, handoff, start, replies[0]).1->More_0;
    let works = wifi_works(options, handoff, start, replies);
    let later = wifi_works(options, handoff, next, replies.skip(1));
    assert(wifi::origin(next) == Some(home_network(replies)));
    lemma_phase(options, handoff, next, replies.skip(1));
    assert(works.last() == later.last());
}

// The whole sync.
/// What a sync comes to where it gets these replies; nothing where they are not
/// the replies of a whole sync.
pub open spec fn ran(options: OptionsView, state: RunView, replies: Seq<RunReplyView>) -> Option<
    ResultView<OutcomeView>,
>
    decreases replies.len(),
{
    if replies.len() == 0 || !run::run_answered(options, state, replies[0]) {
        None
    } else {
        match run::run_next(options, state, replies[0]).1 {
            StepView::More(next) => ran(options, next, replies.skip(1)),
            StepView::Done(result) => if replies.len() == 1 {
                Some(result)
            } else {
                None
            },
        }
    }
}

/// What a sync asks for on the way, a piece of work for each reply, as long as
/// the replies are such as it can get.
pub open spec fn works(options: OptionsView, state: RunView, replies: Seq<RunReplyView>) -> Seq<
    RunWorkView,
>
    decreases replies.len(),
{
    if replies.len() == 0 || !run::run_answered(options, state, replies[0]) {
        seq![]
    } else {
        seq![run::run_work(options, state)] + match run::run_next(options, state, replies[0]).1 {
            StepView::More(next) => works(options, next, replies.skip(1)),
            StepView::Done(_) => seq![],
        }
    }
}

/// What a sync reports on the way.
pub open spec fn events(options: OptionsView, state: RunView, replies: Seq<RunReplyView>) -> Seq<
    JsonView,
>
    decreases replies.len(),
{
    if replies.len() == 0 || !run::run_answered(options, state, replies[0]) {
        seq![]
    } else {
        let next = run::run_next(options, state, replies[0]);
        next.0 + match next.1 {
            StepView::More(next) => events(options, next, replies.skip(1)),
            StepView::Done(_) => seq![],
        }
    }
}

/// Whether a piece of work is one that any sync may ask for: of the camera's
/// characteristics only `Camera Power` is written, on or off, and `Network
/// Type`, to AP mode.
pub open spec fn is_harmless(work: RunWorkView) -> bool {
    work matches RunWorkView::Gatt(GattOp::Write(uuid, byte)) ==> {
        ||| uuid == p::CHAR_CAMERA_POWER && (byte == 0 || byte == 1)
        ||| uuid == p::CHAR_NETWORK_TYPE && byte == 1
    }
}

/// Whether a piece of work is one that a dry run may ask for: it touches nothing on
/// disk, since it neither makes a folder nor downloads nor saves, and does not
/// switch the camera off.
pub open spec fn is_dry(work: RunWorkView) -> bool {
    match work {
        RunWorkView::CreateFolder(_) => false,
        RunWorkView::Wifi(WifiWorkView::Pull(work)) => !(work is Download) && !(work is SaveLedger),
        RunWorkView::Gatt(op) => op != GattOp::Write(p::CHAR_CAMERA_POWER, 0),
        _ => true,
    }
}

/// Whether a piece of work is one that a sync without Bluetooth may ask for: it
/// leaves Bluetooth, the host's network and the camera's access point alone.
pub open spec fn keeps_off(work: RunWorkView) -> bool {
    match work {
        RunWorkView::Connect { .. } => false,
        RunWorkView::Gatt(_) => false,
        RunWorkView::Disconnect => false,
        RunWorkView::Wifi(work) => !(work is Join) && !(work is FinishWlan) && !(work is Restore),
        _ => true,
    }
}

/// Whether a state is one that a dry run can be in.
pub open spec fn in_dry_run(state: RunView) -> bool {
    match state {
        RunView::Wifi { phase: WifiPhaseView::Pulling { pull, .. }, .. } => !(pull is Downloading)
            && !(pull is Saving),
        RunView::CreatingDest => false,
        RunView::Reconnecting { .. } => false,
        RunView::PoweringOff { .. } => false,
        RunView::HangingUp { .. } => false,
        _ => true,
    }
}

proof fn lemma_each_work(options: OptionsView, state: RunView, replies: Seq<RunReplyView>)
    requires
        options.dry_run ==> in_dry_run(state),
        !options.use_ble ==> run::is_without_ble(state),
    ensures
        forall|i: int|
            0 <= i < works(options, state, replies).len() ==> {
                let work = #[trigger] works(options, state, replies)[i];
                &&& is_harmless(work)
                &&& options.dry_run ==> is_dry(work)
                &&& !options.use_ble ==> keeps_off(work)
            },
    decreases replies.len(),
{
    if replies.len() > 0 && run::run_answered(options, state, replies[0]) {
        if !options.use_ble {
            run::lemma_without_ble(options, state, replies[0]);
        }
        if let RunView::BringingUp(state) = state {
            bring_up::lemma_bring_up_writes(options, state);
        }
        if let StepView::More(next) = run::run_next(options, state, replies[0]).1 {
            lemma_each_work(options, next, replies.skip(1));
        }
    }
}

/// Of every sync, as far as it gets: nothing is ever written to the camera but
/// `Camera Power` and `Network Type`; a dry run touches nothing on disk and
/// switches nothing off; and without Bluetooth neither the camera's Bluetooth
/// nor its access point nor the host's network is touched.
pub proof fn lemma_a_sync_changes_only_what_it_may(
    options: OptionsView,
    replies: Seq<RunReplyView>,
)
    ensures
        forall|i: int|
            0 <= i < works(options, run::begun(options).1, replies).len() ==> {
                let work = #[trigger] works(options, run::begun(options).1, replies)[i];
                &&& is_harmless(work)
                &&& options.dry_run ==> is_dry(work)
                &&& !options.use_ble ==> keeps_off(work)
            },
{
    lemma_each_work(options, run::begun(options).1, replies);
}

/// Whether the camera said, in reply to this piece of work, that Bluetooth is why
/// it is awake.
pub open spec fn says_ble_started_it(work: RunWorkView, reply: RunReplyView) -> bool {
    &&& work == RunWorkView::Gatt(GattOp::Read(p::CHAR_OPERATION_MODE))
    &&& reply matches RunReplyView::Gatt(GattReplyView::Value(raw)) && ble::mode_in(raw) == Ok::<
        _,
        ErrorView,
    >(p::OperationMode::BleStartup)
}

/// Whether a state holds that the camera is to be put back to sleep.
pub open spec fn holds_it_woke(state: RunView) -> bool {
    match state {
        RunView::BringingUp(BringUpView::Waking { wake, .. }) => match wake {
            Wake::Mode => false,
            Wake::Power { ours } => ours,
            Wake::SwitchOn { ours } => ours,
            Wake::Settle { ours } => ours,
        },
        RunView::BringingUp(state) => bring_up::knows_it_woke(state) == Some(true),
        RunView::Disconnecting { raised } => raised matches Ok(handoff) && handoff.woke_it,
        RunView::PickingBackend { handoff } => handoff matches Some(handoff) && handoff.woke_it,
        RunView::Wifi { handoff, .. } => handoff matches Some(handoff) && handoff.woke_it,
        RunView::Reconnecting { .. } => true,
        RunView::PoweringOff { .. } => true,
        RunView::HangingUp { .. } => true,
        _ => false,
    }
}

/// Whether one of the first `n` replies said that Bluetooth is why the camera is
/// awake.
pub open spec fn heard_ble_started_it(
    works: Seq<RunWorkView>,
    replies: Seq<RunReplyView>,
    n: int,
) -> bool {
    exists|i: int| 0 <= i < n && #[trigger] says_ble_started_it(works[i], replies[i])
}

proof fn lemma_switching_off(
    options: OptionsView,
    state: RunView,
    replies: Seq<RunReplyView>,
    heard: bool,
)
    requires
        run::is_sound(options, state),
        holds_it_woke(state) ==> heard,
    ensures
        ({
            let works = works(options, state, replies);
            &&& works.len() <= replies.len()
            &&& forall|i: int|
                0 <= i < works.len() && #[trigger] works[i] == RunWorkView::Gatt(
                    GattOp::Write(p::CHAR_CAMERA_POWER, 0),
                ) ==> {
                    &&& options.power_off
                    &&& !options.dry_run
                    &&& heard || heard_ble_started_it(works, replies, i)
                }
        }),
    decreases replies.len(),
{
    if replies.len() > 0 && run::run_answered(options, state, replies[0]) {
        let all = works(options, state, replies);
        let reply = replies[0];
        run::lemma_only_a_woken_camera_is_switched_off(options, state, reply);
        if let StepView::More(next) = run::run_next(options, state, reply).1 {
            let said = says_ble_started_it(run::run_work(options, state), reply);
            lemma_switching_off(options, next, replies.skip(1), heard || said);
            let later = works(options, next, replies.skip(1));
            assert forall|i: int|
                0 <= i < all.len() && #[trigger] all[i] == RunWorkView::Gatt(
                    GattOp::Write(p::CHAR_CAMERA_POWER, 0),
                ) implies {
                &&& options.power_off
                &&& !options.dry_run
                &&& heard || heard_ble_started_it(all, replies, i)
            } by {
                if i > 0 {
                    assert(later[i - 1] == all[i]);
                    if said {
                        assert(says_ble_started_it(all[0], replies[0]));
                    } else if !heard {
                        let j = choose|j: int|
                            0 <= j < i - 1 && #[trigger] says_ble_started_it(
                                later[j],
                                replies.skip(1)[j],
                            );
                        assert(says_ble_started_it(all[j + 1], replies[j + 1]));
                    }
                }
            }
        }
    }
}

/// Of every sync, as far as it gets: the camera is switched off only where the
/// camera itself said before that Bluetooth is why it is awake, where switching it
/// off is asked for, and not on a dry run.
pub proof fn lemma_only_a_camera_that_ble_started_is_switched_off(
    options: OptionsView,
    replies: Seq<RunReplyView>,
    i: int,
)
    requires
        0 <= i < works(options, run::begun(options).1, replies).len(),
        works(options, run::begun(options).1, replies)[i] == RunWorkView::Gatt(
            GattOp::Write(p::CHAR_CAMERA_POWER, 0),
        ),
    ensures
        options.power_off,
        !options.dry_run,
        heard_ble_started_it(works(options, run::begun(options).1, replies), replies, i),
{
    lemma_switching_off(options, run::begun(options).1, replies, false);
}

/// Whether a connection made at `from` is given up: after some operations on the
/// camera, and nothing else, it is disconnected.
pub open spec fn is_given_up(works: Seq<RunWorkView>, from: int) -> bool {
    exists|k: int|
        from <= k < works.len() && #[trigger] works[k] == RunWorkView::Disconnect && forall|j: int|
            from <= j < k ==> (#[trigger] works[j]) is Gatt
}

proof fn lemma_given_up(options: OptionsView, state: RunView, replies: Seq<RunReplyView>)
    requires
        ran(options, state, replies) is Some,
    ensures
        ({
            let works = works(options, state, replies);
            &&& works.len() == replies.len()
            &&& run::is_connected(state) ==> is_given_up(works, 0)
            &&& forall|i: int|
                0 <= i < replies.len() && ((
                #[trigger] replies[i]) matches RunReplyView::Connected(Ok(_))) ==> is_given_up(
                    works,
                    i + 1,
                )
        }),
    decreases replies.len(),
{
    let all = works(options, state, replies);
    let rest = replies.skip(1);
    let reply = replies[0];
    match run::run_next(options, state, reply).1 {
        StepView::More(next) => {
            lemma_given_up(options, next, rest);
            let later = works(options, next, rest);
            assert(forall|i: int| 0 <= i < later.len() ==> all[i + 1] == later[i]);
            assert forall|i: int| 0 <= i < rest.len() && is_given_up(later, i) implies is_given_up(
                all,
                i + 1,
            ) by {
                let k = choose|k: int|
                    i <= k < later.len() && #[trigger] later[k] == RunWorkView::Disconnect
                        && forall|j: int| i <= j < k ==> (#[trigger] later[j]) is Gatt;
                assert(all[k + 1] == RunWorkView::Disconnect);
                assert forall|j: int| i + 1 <= j < k + 1 implies (#[trigger] all[j]) is Gatt by {
                    assert(all[j] == later[j - 1]);
                }
            }
            if run::is_connected(state) {
                if all[0] == RunWorkView::Disconnect {
                    assert(is_given_up(all, 0));
                } else {
                    assert(run::is_connected(next));
                    assert(all[0] is Gatt);
                    let k = choose|k: int|
                        0 <= k < later.len() && #[trigger] later[k] == RunWorkView::Disconnect
                            && forall|j: int| 0 <= j < k ==> (#[trigger] later[j]) is Gatt;
                    assert(all[k + 1] == RunWorkView::Disconnect);
                    assert forall|j: int| 0 <= j < k + 1 implies (#[trigger] all[j]) is Gatt by {
                        if j > 0 {
                            assert(all[j] == later[j - 1]);
                        }
                    }
                }
            }
            assert forall|i: int|
                0 <= i < replies.len() && ((
                #[trigger] replies[i]) matches RunReplyView::Connected(Ok(_))) implies is_given_up(
                all,
                i + 1,
            ) by {
                if i == 0 {
                    assert(run::is_connected(next));
                    assert(is_given_up(later, 0));
                } else {
                    assert(rest[i - 1] == replies[i]);
                    assert(is_given_up(later, i));
                    assert(0 <= i < rest.len());
                }
            }
        },
        StepView::Done(_) => {
            assert(all =~= seq![run::run_work(options, state)]);
        },
    }
}

/// Of a whole sync: every Bluetooth connection is given up again, before anything
/// is done over Wi-Fi.
pub proof fn lemma_every_connection_is_given_up(
    options: OptionsView,
    replies: Seq<RunReplyView>,
    i: int,
)
    requires
        ran(options, run::begun(options).1, replies) is Some,
        0 <= i < replies.len(),
        replies[i] matches RunReplyView::Connected(Ok(_)),
    ensures
        is_given_up(works(options, run::begun(options).1, replies), i + 1),
{
    lemma_given_up(options, run::begun(options).1, replies);
}

/// Of a whole sync that succeeds: the last thing reported is the event that sums
/// it up.
pub proof fn lemma_done_is_reported_last(
    options: OptionsView,
    state: RunView,
    replies: Seq<RunReplyView>,
    outcome: OutcomeView,
)
    requires
        ran(options, state, replies) == Some(Ok::<_, ErrorView>(outcome)),
    ensures
        events(options, state, replies).len() > 0,
        events(options, state, replies).last() == sync::done_event(outcome),
    decreases replies.len(),
{
    run::lemma_done_comes_last(options, state, replies[0]);
    match run::run_next(options, state, replies[0]).1 {
        StepView::More(next) => {
            lemma_done_is_reported_last(options, next, replies.skip(1), outcome);
            let later = events(options, next, replies.skip(1));
            assert(events(options, state, replies).last() == later.last());
        },
        StepView::Done(_) => {
            let first = run::run_next(options, state, replies[0]).0;
            assert(events(options, state, replies) =~= first);
        },
    }
}

/// What the host was on when the Wi-Fi phase of a sync began, as far as could be
/// told.
pub open spec fn home_of(replies: Seq<RunReplyView>) -> WifiStateView
    decreases replies.len(),
{
    if replies.len() == 0 {
        netlink::no_association()
    } else {
        match replies[0] {
            RunReplyView::Wifi(WifiReplyView::Current(Ok(state))) => state,
            RunReplyView::Wifi(WifiReplyView::Current(Err(_))) => netlink::no_association(),
            _ => home_of(replies.skip(1)),
        }
    }
}

/// Whether something from number `from` on puts the host back to a network.
pub open spec fn is_put_back(works: Seq<RunWorkView>, from: int, home: WifiStateView) -> bool {
    exists|k: int|
        from <= k < works.len() && #[trigger] works[k] == RunWorkView::Wifi(
            WifiWorkView::Restore(home),
        )
}

/// What the host was on before, where a state knows it.
pub open spec fn known_home(state: RunView) -> Option<WifiStateView> {
    match state {
        RunView::Wifi { phase, .. } => wifi::origin(phase),
        _ => None,
    }
}

proof fn lemma_put_back(
    options: OptionsView,
    state: RunView,
    replies: Seq<RunReplyView>,
    home: WifiStateView,
)
    requires
        ran(options, state, replies) is Some,
        match known_home(state) {
            Some(known) => known == home,
            None => home == home_of(replies),
        },
        state matches RunView::Wifi { handoff, phase } ==> (handoff is None ==> wifi::keeps_off(
            phase,
        )),
    ensures
        ({
            let works = works(options, state, replies);
            &&& works.len() == replies.len()
            &&& (state matches RunView::Wifi { phase, .. } && wifi::moved(phase)) ==> is_put_back(
                works,
                0,
                home,
            )
            &&& run::switching_off(state) is Some ==> forall|i: int|
                0 <= i < replies.len() ==> !((#[trigger] replies[i]) is Wifi)
            &&& forall|i: int|
                0 <= i < replies.len() && ((#[trigger] replies[i]) matches RunReplyView::Wifi(
                    WifiReplyView::Joined(_),
                )) ==> is_put_back(works, i + 1, home)
        }),
    decreases replies.len(),
{
    let all = works(options, state, replies);
    let rest = replies.skip(1);
    let reply = replies[0];
    if let RunView::Wifi { handoff, phase } = state {
        if let RunReplyView::Wifi(reply) = reply {
            wifi::lemma_the_host_is_put_back(options, handoff, phase, reply);
            if handoff is None {
                wifi::lemma_without_ble_nothing_is_touched(options, phase, reply);
            }
        }
    }
    match run::run_next(options, state, reply).1 {
        StepView::More(next) => {
            let known = match known_home(next) {
                Some(known) => known,
                None => home_of(rest),
            };
            lemma_put_back(options, next, rest, known);
            let later = works(options, next, rest);
            assert(forall|i: int| 0 <= i < later.len() ==> all[i + 1] == later[i]);
            assert forall|i: int, at: WifiStateView|
                0 <= i <= rest.len() && #[trigger] is_put_back(later, i, at) implies is_put_back(
                all,
                i + 1,
                at,
            ) by {
                let k = choose|k: int|
                    i <= k < later.len() && #[trigger] later[k] == RunWorkView::Wifi(
                        WifiWorkView::Restore(at),
                    );
                assert(all[k + 1] == later[k]);
            }
            assert(run::switching_off(next) is None ==> known == home);
            if let RunView::Wifi { phase, .. } = state {
                if wifi::moved(phase) {
                    if next is Wifi {
                        assert(is_put_back(later, 0, known));
                        assert(is_put_back(all, 1, home));
                    } else {
                        assert(all[0] == RunWorkView::Wifi(WifiWorkView::Restore(home)));
                    }
                }
            }
            assert forall|i: int|
                0 <= i < replies.len() && ((#[trigger] replies[i]) matches RunReplyView::Wifi(
                    WifiReplyView::Joined(_),
                )) implies is_put_back(all, i + 1, home) by {
                if i > 0 {
                    assert(rest[i - 1] == replies[i]);
                    assert(is_put_back(later, i, known));
                } else {
                    assert(is_put_back(later, 0, known));
                }
            }
            if run::switching_off(state) is Some {
                assert forall|i: int| 0 <= i < replies.len() implies !((
                #[trigger] replies[i]) is Wifi) by {
                    if i > 0 {
                        assert(rest[i - 1] == replies[i]);
                    }
                }
            }
        },
        StepView::Done(_) => {
            assert(all[0] == run::run_work(options, state));
        },
    }
}

/// Of a whole sync, however it ends: where the host was made to join the camera's
/// network, even in vain, it is put back afterwards to the network it was on.
pub proof fn lemma_the_host_always_comes_home(
    options: OptionsView,
    replies: Seq<RunReplyView>,
    i: int,
)
    requires
        ran(options, run::begun(options).1, replies) is Some,
        0 <= i < replies.len(),
        replies[i] matches RunReplyView::Wifi(WifiReplyView::Joined(_)),
    ensures
        is_put_back(
            works(options, run::begun(options).1, replies),
            i + 1,
            home_of(replies),
        ),
{
    lemma_put_back(options, run::begun(options).1, replies, home_of(replies));
}

} // verus!
