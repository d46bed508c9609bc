//! Which photos this host has already pulled off the card.
//!
//! Two independent sources answer that, and gr3sync trusts their union:
//!
//! * **the destination tree**: if `100RICOH/R0001234.JPG` is on disk, it is
//!   downloaded. This survives losing the ledger entirely.
//! * **the ledger**: a JSON sidecar recording keys downloaded at some point.
//!   This is what stops "import into a photo manager, then move the originals
//!   out of the inbox" from re-downloading the whole card next time.
//!
//! Neither alone is right, which is why both exist.

use crate::error;
use crate::error::{Error, ErrorView, ResultView};
use crate::paths;
use crate::procedure::{Step, StepView};
use crate::textmap;
use crate::textmap::TextMap;
use vstd::prelude::*;

verus! {

pub const LEDGER_FILENAME: &'static str = ".gr3sync-ledger.json";

pub const LEDGER_VERSION: u32 = 1;

#[derive(Debug, PartialEq, Eq)]
pub struct Entry {
    pub size: u64,
    pub camera: Option<String>,
}

/// What the ledger knows of a file, mathematically.
#[verifier::ext_equal]
pub struct EntryView {
    pub size: u64,
    pub camera: Option<Seq<char>>,
}

impl View for Entry {
    type V = EntryView;

    open spec fn view(&self) -> EntryView {
        EntryView { size: self.size, camera: self.camera.deep_view() }
    }
}

impl DeepView for Entry {
    type V = EntryView;

    open spec fn deep_view(&self) -> EntryView {
        self@
    }
}

impl Clone for Entry {
    fn clone(&self) -> (copy: Self)
        ensures
            copy@ == self@,
    {
        Entry { size: self.size, camera: self.camera.clone() }
    }
}

/// What has been downloaded, and where that is written down.
#[derive(Debug)]
pub struct Ledger {
    path: String,
    downloaded: TextMap<Entry>,
}

/// A map of entries, each seen mathematically.
pub open spec fn entries_seen(entries: Map<Seq<char>, Entry>) -> Map<Seq<char>, EntryView> {
    entries.map_values(|entry: Entry| entry@)
}

impl View for Ledger {
    type V = Map<Seq<char>, EntryView>;

    closed spec fn view(&self) -> Map<Seq<char>, EntryView> {
        entries_seen(self.downloaded@)
    }
}

/// What a list of entries records; of two with one key, the later.
pub open spec fn recorded(entries: Seq<(Seq<char>, EntryView)>) -> Map<Seq<char>, EntryView>
    decreases entries.len(),
{
    if entries.len() == 0 {
        Map::empty()
    } else {
        recorded(entries.drop_last()).insert(entries.last().0, entries.last().1)
    }
}

/// Where the ledger of a destination is kept.
pub open spec fn ledger_path(root: Seq<char>) -> Seq<char> {
    paths::joined(root, ".gr3sync-ledger.json"@)
}

impl Ledger {
    /// Where the ledger is kept.
    pub closed spec fn file(&self) -> Seq<char> {
        self.path@
    }

    /// Where the ledger of a destination is kept.
    pub fn path_in(root: &str) -> (path: String)
        ensures
            path@ == ledger_path(root@),
    {
        paths::join(root, LEDGER_FILENAME)
    }

    pub fn path(&self) -> (path: &str)
        ensures
            path@ == self.file(),
    {
        self.path.as_str()
    }

    /// The ledger of a destination, given the entries of the file that holds
    /// it.
    ///
    /// A corrupt or unreadable ledger must not block a sync: the destination
    /// tree is still authoritative, so without entries this starts a fresh one
    /// rather than fail.
    pub fn load(root: &str, entries: Option<Vec<(String, Entry)>>) -> (ledger: Self)
        ensures
            ledger.file() == ledger_path(root@),
            ledger@ == match entries {
                Some(entries) => recorded(entries.deep_view()),
                None => Map::empty(),
            },
    {
        let mut ledger = Ledger { path: Self::path_in(root), downloaded: TextMap::new() };
        assert(ledger@ == Map::<Seq<char>, EntryView>::empty());
        match entries {
            Some(entries) => {
                let mut i: usize = 0;
                assert(recorded(entries.deep_view().take(0)) == Map::<
                    Seq<char>,
                    EntryView,
                >::empty());
                while i < entries.len()
                    invariant
                        i <= entries@.len(),
                        ledger.file() == ledger_path(root@),
                        ledger@ == recorded(entries.deep_view().take(i as int)),
                    decreases entries@.len() - i,
                {
                    let entry = &entries[i];
                    ledger.record(entry.0.as_str(), entry.1.size, entry.1.camera.clone());
                    i += 1;
                    proof {
                        let done = entries.deep_view().take(i as int);
                        assert(done.drop_last() == entries.deep_view().take(i - 1));
                        assert(done.last() == (entry.0@, entry.1@));
                    }
                }
                assert(entries.deep_view().take(entries@.len() as int) == entries.deep_view());
            },
            None => {},
        }
        ledger
    }

    pub fn contains(&self, key: &str) -> (yes: bool)
        ensures
            yes == self@.contains_key(key@),
    {
        self.downloaded.get(key).is_some()
    }

    /// What is recorded of a key.
    pub fn get(&self, key: &str) -> (entry: Option<&Entry>)
        ensures
            match entry {
                Some(entry) => self@.contains_key(key@) && self@[key@] == entry@,
                None => !self@.contains_key(key@),
            },
    {
        self.downloaded.get(key)
    }

    pub fn len(&self) -> (count: usize)
        ensures
            count == self@.dom().len(),
            self@.dom().finite(),
    {
        assert(self@.dom() =~= self.downloaded@.dom());
        self.downloaded.len()
    }

    pub fn is_empty(&self) -> (yes: bool)
        ensures
            yes == (self@ == Map::<Seq<char>, EntryView>::empty()),
    {
        let count: usize = self.len();
        proof {
            if count == 0 {
                assert(self@.dom() =~= Set::empty());
                assert(self@ =~= Map::<Seq<char>, EntryView>::empty());
            } else {
                assert(Map::<Seq<char>, EntryView>::empty().dom() =~= Set::empty());
            }
        }
        count == 0
    }

    pub fn record(&mut self, key: &str, size: u64, camera: Option<String>)
        ensures
            final(self)@ == old(self)@.insert(
                key@,
                EntryView { size, camera: camera.deep_view() },
            ),
            final(self).file() == old(self).file(),
    {
        self.downloaded.insert(key.to_owned(), Entry { size, camera });
        assert(self@ =~= old(self)@.insert(
            key@,
            EntryView { size, camera: camera.deep_view() },
        ));
    }

    /// Every entry, in the order of their keys.
    pub fn entries(&self) -> (entries: Vec<(String, Entry)>)
        ensures
            recorded(entries.deep_view()) == self@,
            textmap::keys_in(entries@) == textmap::sorted(self@.dom()),
    {
        let mut entries: Vec<(String, Entry)> = Vec::new();
        let count: usize = self.downloaded.len();
        let ghost keys = textmap::sorted(self@.dom());
        assert(self@.dom() =~= self.downloaded@.dom());
        let mut i: usize = 0;
        while i < count
            invariant
                i <= count,
                count == keys.len(),
                keys == textmap::sorted(self.downloaded@.dom()),
                count == self.downloaded@.dom().len(),
                entries@.len() == i,
                forall|j: int|
                    0 <= j < i ==> (#[trigger] entries@[j]).0@ == keys[j] && self@.contains_key(
                        keys[j],
                    ) && entries@[j].1@ == self@[keys[j]],
            decreases count - i,
        {
            let (key, entry) = self.downloaded.at(i);
            assert(self@.contains_key(key@) && self@[key@] == entry@);
            entries.push((key.to_owned(), entry.clone()));
            i += 1;
        }
        proof {
            assert(textmap::keys_in(entries@) =~= keys);
            let pairs = entries.deep_view();
            assert forall|i: int| 0 <= i < pairs.len() implies self@.contains_key(
                (#[trigger] pairs[i]).0,
            ) && self@[pairs[i].0] == pairs[i].1 by {
                assert(pairs[i] == (entries@[i].0@, entries@[i].1@));
            }
            assert forall|key: Seq<char>| #[trigger] self@.contains_key(key) implies exists|i: int|
                0 <= i < pairs.len() && (#[trigger] pairs[i]).0 == key by {
                assert(keys.contains(key));
                let i = choose|i: int| 0 <= i < keys.len() && keys[i] == key;
                assert(entries@[i].0@ == key);
                assert(pairs[i].0 == key);
            }
            lemma_recorded(pairs, self@);
        }
        entries
    }
}

proof fn lemma_recorded(entries: Seq<(Seq<char>, EntryView)>, map: Map<Seq<char>, EntryView>)
    requires
        forall|i: int|
            0 <= i < entries.len() ==> map.contains_key((#[trigger] entries[i]).0)
                && map[entries[i].0] == entries[i].1,
        forall|key: Seq<char>| #[trigger]
            map.contains_key(key) ==> exists|i: int|
                0 <= i < entries.len() && (#[trigger] entries[i]).0 == key,
    ensures
        recorded(entries) == map,
{
    lemma_recorded_part(entries, map);
    assert(recorded(entries) =~= map);
}

proof fn lemma_recorded_part(
    entries: Seq<(Seq<char>, EntryView)>,
    map: Map<Seq<char>, EntryView>,
)
    requires
        forall|i: int|
            0 <= i < entries.len() ==> map.contains_key((#[trigger] entries[i]).0)
                && map[entries[i].0] == entries[i].1,
    ensures
        forall|key: Seq<char>| #[trigger]
            recorded(entries).contains_key(key) <==> exists|i: int|
                0 <= i < entries.len() && (#[trigger] entries[i]).0 == key,
        forall|key: Seq<char>| #[trigger]
            recorded(entries).contains_key(key) ==> map.contains_key(key) && recorded(
                entries,
            )[key] == map[key],
    decreases entries.len(),
{
    if entries.len() > 0 {
        let rest = entries.drop_last();
        assert forall|i: int| 0 <= i < rest.len() implies map.contains_key((#[trigger] rest[i]).0)
            && map[rest[i].0] == rest[i].1 by {
            assert(rest[i] == entries[i]);
        }
        lemma_recorded_part(rest, map);
        let last = entries.last();
        assert(entries[entries.len() - 1] == last);
        assert forall|key: Seq<char>| #[trigger]
            recorded(entries).contains_key(key) <==> exists|i: int|
                0 <= i < entries.len() && (#[trigger] entries[i]).0 == key by {
            if recorded(rest).contains_key(key) {
                let i = choose|i: int| 0 <= i < rest.len() && (#[trigger] rest[i]).0 == key;
                assert(entries[i].0 == key);
            }
            if exists|i: int| 0 <= i < entries.len() && (#[trigger] entries[i]).0 == key {
                let i = choose|i: int| 0 <= i < entries.len() && (#[trigger] entries[i]).0 == key;
                if i < rest.len() {
                    assert(rest[i].0 == key);
                }
            }
        }
        assert forall|key: Seq<char>| #[trigger] recorded(entries).contains_key(key) implies map.contains_key(
            key,
        ) && recorded(entries)[key] == map[key] by {
            if key != last.0 {
                assert(recorded(rest).contains_key(key));
            }
        }
    }
}

/// What is found on disk or in the ledger is here already.
///
/// `on_disk` says whether the key names a file below the destination.
pub fn already_have(on_disk: bool, key: &str, ledger: &Ledger) -> (yes: bool)
    ensures
        yes == (on_disk || ledger@.contains_key(key@)),
{
    on_disk || ledger.contains(key)
}

/// What was recorded is there, and what else was there stays.
pub proof fn lemma_recording(
    ledger: Map<Seq<char>, EntryView>,
    key: Seq<char>,
    entry: EntryView,
    other: Seq<char>,
)
    ensures
        ledger.insert(key, entry).contains_key(key),
        ledger.contains_key(other) ==> ledger.insert(key, entry).contains_key(other),
        other != key ==> ledger.insert(key, entry).contains_key(other) == ledger.contains_key(
            other,
        ),
{
}

/// Writing the ledger to its file, told apart by what is being waited for.
#[derive(Debug)]
pub enum Saving {
    Folder,
    Create,
    Write,
    Sync,
    Rename,
    Remove { error: Error },
}

#[verifier::ext_equal]
pub enum SavingView {
    Folder,
    Create,
    Write,
    Sync,
    Rename,
    Remove { error: ErrorView },
}

impl View for Saving {
    type V = SavingView;

    open spec fn view(&self) -> SavingView {
        match *self {
            Saving::Folder => SavingView::Folder,
            Saving::Create => SavingView::Create,
            Saving::Write => SavingView::Write,
            Saving::Sync => SavingView::Sync,
            Saving::Rename => SavingView::Rename,
            Saving::Remove { error } => SavingView::Remove { error: error@ },
        }
    }
}

impl DeepView for Saving {
    type V = SavingView;

    open spec fn deep_view(&self) -> SavingView {
        self@
    }
}

/// What saving the ledger asks to be done.
#[derive(Debug)]
pub enum SaveWork {
    CreateFolder(String),
    CreateFile(String),
    /// Write the entries into the file that was created.
    Write,
    /// Have the file's contents reach the disk.
    Sync,
    Rename { from: String, to: String },
    /// Remove the file, whether or not there is one.
    Remove(String),
}

#[verifier::ext_equal]
pub enum SaveWorkView {
    CreateFolder(Seq<char>),
    CreateFile(Seq<char>),
    Write,
    Sync,
    Rename { from: Seq<char>, to: Seq<char> },
    Remove(Seq<char>),
}

impl View for SaveWork {
    type V = SaveWorkView;

    open spec fn view(&self) -> SaveWorkView {
        match *self {
            SaveWork::CreateFolder(path) => SaveWorkView::CreateFolder(path@),
            SaveWork::CreateFile(path) => SaveWorkView::CreateFile(path@),
            SaveWork::Write => SaveWorkView::Write,
            SaveWork::Sync => SaveWorkView::Sync,
            SaveWork::Rename { from, to } => SaveWorkView::Rename { from: from@, to: to@ },
            SaveWork::Remove(path) => SaveWorkView::Remove(path@),
        }
    }
}

/// The directory that the ledger's file lies in.
pub open spec fn ledger_folder(path: Seq<char>) -> Seq<char> {
    match paths::parent(path) {
        Some(folder) => folder,
        None => "."@,
    }
}

/// What each state of saving asks for.
pub open spec fn save_work(path: Seq<char>, state: SavingView) -> SaveWorkView {
    let temporary = path + ".tmp"@;
    match state {
        SavingView::Folder => SaveWorkView::CreateFolder(ledger_folder(path)),
        SavingView::Create => SaveWorkView::CreateFile(temporary),
        SavingView::Write => SaveWorkView::Write,
        SavingView::Sync => SaveWorkView::Sync,
        SavingView::Rename => SaveWorkView::Rename { from: temporary, to: path },
        SavingView::Remove { .. } => SaveWorkView::Remove(temporary),
    }
}

/// How saving goes on: the entries are written to a temporary file, which takes
/// the ledger's place only once it is whole on the disk.
///
/// `failure` is why the last piece of work failed, where it did.
pub open spec fn save_next(
    path: Seq<char>,
    state: SavingView,
    failure: Option<Seq<char>>,
) -> StepView<SavingView, ()> {
    let temporary = path + ".tmp"@;
    match (state, failure) {
        (SavingView::Folder, None) => StepView::More(SavingView::Create),
        (SavingView::Folder, Some(reason)) => StepView::Done(
            Err(ErrorView::Io { context: "creating "@ + ledger_folder(path), source: reason }),
        ),
        (SavingView::Create, None) => StepView::More(SavingView::Write),
        (SavingView::Create, Some(reason)) => StepView::Done(
            Err(ErrorView::Io { context: "creating "@ + temporary, source: reason }),
        ),
        (SavingView::Write, None) => StepView::More(SavingView::Sync),
        (SavingView::Write, Some(reason)) => StepView::Done(
            Err(ErrorView::Io { context: "writing "@ + temporary, source: reason }),
        ),
        (SavingView::Sync, None) => StepView::More(SavingView::Rename),
        (SavingView::Sync, Some(reason)) => StepView::Done(
            Err(ErrorView::Io { context: "syncing "@ + temporary, source: reason }),
        ),
        (SavingView::Rename, None) => StepView::Done(Ok(())),
        (SavingView::Rename, Some(reason)) => StepView::More(
            SavingView::Remove {
                error: ErrorView::Io { context: "renaming "@ + temporary, source: reason },
            },
        ),
        (SavingView::Remove { error }, _) => StepView::Done(Err(error)),
    }
}

/// How far saving is from its end.
pub open spec fn saving_rank(state: SavingView) -> nat {
    match state {
        SavingView::Folder => 6,
        SavingView::Create => 5,
        SavingView::Write => 4,
        SavingView::Sync => 3,
        SavingView::Rename => 2,
        SavingView::Remove { .. } => 1,
    }
}

fn failed(verb: &str, path: &str, reason: &str) -> (error: Error)
    ensures
        error@ == (ErrorView::Io { context: verb@ + path@, source: reason@ }),
{
    let mut context = verb.to_owned();
    context.append(path);
    Error::io(context.as_str(), reason)
}

impl Ledger {
    fn folder(&self) -> (folder: String)
        ensures
            folder@ == ledger_folder(self.file()),
    {
        match paths::parent_of(self.path.as_str()) {
            Some(folder) => folder,
            None => ".".to_owned(),
        }
    }

    fn temporary(&self) -> (path: String)
        ensures
            path@ == self.file() + ".tmp"@,
    {
        let mut path = self.path.clone();
        path.append(".tmp");
        path
    }

    /// What to do next to write the ledger atomically, so a crash cannot
    /// truncate it.
    pub fn save(&self, state: &Saving) -> (work: SaveWork)
        ensures
            work@ == save_work(self.file(), state@),
    {
        match state {
            Saving::Folder => SaveWork::CreateFolder(self.folder()),
            Saving::Create => SaveWork::CreateFile(self.temporary()),
            Saving::Write => SaveWork::Write,
            Saving::Sync => SaveWork::Sync,
            Saving::Rename => SaveWork::Rename { from: self.temporary(), to: self.path.clone() },
            Saving::Remove { .. } => SaveWork::Remove(self.temporary()),
        }
    }

    /// Go on from what came of it.
    pub fn saved(&self, state: Saving, failure: Option<String>) -> (step: Step<Saving, ()>)
        ensures
            step@ == save_next(self.file(), state@, failure.deep_view()),
            step@ matches StepView::More(next) ==> saving_rank(next) < saving_rank(state@),
    {
        match (state, failure) {
            (Saving::Folder, None) => Step::More(Saving::Create),
            (Saving::Folder, Some(reason)) => Step::Done(
                Err(failed("creating ", self.folder().as_str(), reason.as_str())),
            ),
            (Saving::Create, None) => Step::More(Saving::Write),
            (Saving::Create, Some(reason)) => Step::Done(
                Err(failed("creating ", self.temporary().as_str(), reason.as_str())),
            ),
            (Saving::Write, None) => Step::More(Saving::Sync),
            (Saving::Write, Some(reason)) => Step::Done(
                Err(failed("writing ", self.temporary().as_str(), reason.as_str())),
            ),
            (Saving::Sync, None) => Step::More(Saving::Rename),
            (Saving::Sync, Some(reason)) => Step::Done(
                Err(failed("syncing ", self.temporary().as_str(), reason.as_str())),
            ),
            (Saving::Rename, None) => Step::Done(Ok(())),
            (Saving::Rename, Some(reason)) => Step::More(
                Saving::Remove {
                    error: failed("renaming ", self.temporary().as_str(), reason.as_str()),
                },
            ),
            (Saving::Remove { error }, _) => Step::Done(Err(error)),
        }
    }
}

/// Nothing but the final rename touches the ledger's own file, and saving is
/// over well only after it.
pub proof fn lemma_saving_is_atomic(path: Seq<char>, state: SavingView, failure: Option<Seq<char>>)
    ensures
        save_work(path, state) matches SaveWorkView::CreateFile(target) ==> target == path
            + ".tmp"@,
        save_work(path, state) matches SaveWorkView::Remove(target) ==> target == path + ".tmp"@,
        save_work(path, state) matches SaveWorkView::Rename { from, to } ==> from == path
            + ".tmp"@ && to == path,
        save_next(path, state, failure) == StepView::<SavingView, ()>::Done(Ok(())) ==> state
            == SavingView::Rename && failure is None,
{
}

/// What saving comes to where its pieces of work fail for these reasons, or do
/// not; nothing where that is not a whole saving.
pub open spec fn saving_result(
    path: Seq<char>,
    state: SavingView,
    failures: Seq<Option<Seq<char>>>,
) -> Option<ResultView<()>>
    decreases failures.len(),
{
    if failures.len() == 0 {
        None
    } else {
        match save_next(path, state, failures[0]) {
            StepView::More(next) => saving_result(path, next, failures.skip(1)),
            StepView::Done(result) => if failures.len() == 1 {
                Some(result)
            } else {
                None
            },
        }
    }
}

/// What the ledger's file holds after saving `ledger`, where it held `kept`
/// before: `written` is whether the temporary file holds all of it.
pub open spec fn file_after(
    path: Seq<char>,
    state: SavingView,
    failures: Seq<Option<Seq<char>>>,
    ledger: Map<Seq<char>, EntryView>,
    kept: Option<Map<Seq<char>, EntryView>>,
    written: bool,
) -> Option<Map<Seq<char>, EntryView>>
    decreases failures.len(),
{
    if failures.len() == 0 {
        kept
    } else {
        let worked = failures[0] is None;
        let work = save_work(path, state);
        let now = if worked && work is Rename {
            if written {
                Some(ledger)
            } else {
                None
            }
        } else {
            kept
        };
        match save_next(path, state, failures[0]) {
            StepView::More(next) => file_after(
                path,
                next,
                failures.skip(1),
                ledger,
                now,
                written || (worked && work is Write),
            ),
            StepView::Done(_) => now,
        }
    }
}

/// Of a whole saving: where it works the file holds the ledger, and where it
/// fails the file holds what it held before.
pub proof fn lemma_a_whole_saving(
    path: Seq<char>,
    failures: Seq<Option<Seq<char>>>,
    ledger: Map<Seq<char>, EntryView>,
    kept: Option<Map<Seq<char>, EntryView>>,
)
    requires
        saving_result(path, SavingView::Folder, failures) is Some,
    ensures
        file_after(path, SavingView::Folder, failures, ledger, kept, false) == (
        match saving_result(path, SavingView::Folder, failures).unwrap() {
            Ok(_) => Some(ledger),
            Err(_) => kept,
        }),
{
    reveal_with_fuel(saving_result, 7);
    reveal_with_fuel(file_after, 7);
}

/// Of the entries of a ledger's file with one key, the last counts, wherever it
/// stands; and what has no entry is not in the ledger.
pub proof fn lemma_the_last_entry_counts(
    entries: Seq<(Seq<char>, EntryView)>,
    key: Seq<char>,
    k: int,
)
    requires
        -1 <= k < entries.len(),
        k >= 0 ==> entries[k].0 == key,
        forall|j: int| k < j < entries.len() ==> (#[trigger] entries[j]).0 != key,
    ensures
        k >= 0 ==> recorded(entries).contains_key(key) && recorded(entries)[key] == entries[k].1,
        k < 0 ==> !recorded(entries).contains_key(key),
    decreases entries.len(),
{
    if entries.len() > 0 && k < entries.len() - 1 {
        let front = entries.drop_last();
        assert(entries[entries.len() - 1].0 != key);
        assert(forall|j: int| 0 <= j < front.len() ==> front[j] == entries[j]);
        lemma_the_last_entry_counts(front, key, k);
    }
}

/// The ledger lies in the destination it is of, and is saved by way of a file beside
/// it.
pub proof fn lemma_the_ledger_lies_in_its_destination(root: Seq<char>)
    requires
        paths::tidied(root) == root,
        root.len() > 0,
    ensures
        ledger_folder(ledger_path(root)) == root,
        ledger_path(root) == paths::joined(root, ".gr3sync-ledger.json"@),
        save_work(ledger_path(root), SavingView::Folder) == SaveWorkView::CreateFolder(root),
{
    reveal_strlit(".gr3sync-ledger.json");
    let name = ".gr3sync-ledger.json"@;
    assert(name.len() == 20);
    assert(forall|i: int| 0 <= i < name.len() ==> name[i] != '/');
    paths::lemma_a_file_lies_in_its_folder(root, name, Seq::empty());
}

/// Of a saving in which nothing fails: it works, and makes the folder, creates the
/// temporary file, writes and syncs it and renames it, in this order; any failure fails
/// it, for that reason.
pub proof fn lemma_a_saving_in_which_nothing_fails(
    path: Seq<char>,
    state: SavingView,
    reason: Seq<char>,
)
    requires
        !(state is Remove),
    ensures
        saving_result(path, SavingView::Folder, seq![None, None, None, None, None]) == Some(
            Ok::<(), ErrorView>(()),
        ),
        save_next(path, SavingView::Folder, None) == StepView::<SavingView, ()>::More(
            SavingView::Create,
        ),
        save_next(path, SavingView::Create, None) == StepView::<SavingView, ()>::More(
            SavingView::Write,
        ),
        save_next(path, SavingView::Write, None) == StepView::<SavingView, ()>::More(
            SavingView::Sync,
        ),
        save_next(path, SavingView::Sync, None) == StepView::<SavingView, ()>::More(
            SavingView::Rename,
        ),
        match save_next(path, state, Some(reason)) {
            StepView::Done(Err(ErrorView::Io { source, .. })) => source == reason,
            StepView::More(SavingView::Remove { error: ErrorView::Io { source, .. } }) => source
                == reason,
            _ => false,
        },
{
    reveal_with_fuel(saving_result, 6);
}

} // verus!
