//! What the command line interface decides: what its arguments mean, what it
//! shows, and how it exits.
//!
//! Built as a set of small, independently runnable subcommands rather than one
//! monolithic `sync`. Two reasons:
//!
//! * the BLE leg cannot be exercised without the camera in the room, so each
//!   step of it has to be pokeable on its own (`scan`, `info`, `wlan on`,
//!   `doctor`, `raw`) when something misbehaves;
//! * a wrapper (a photo-manager plugin, a systemd timer) should reach for
//!   exactly the step it needs and read `--json` output rather than parse
//!   progress text.

use crate::ble::DiscoveredCamera;
use crate::camera::{PhotoRef, PhotoView};
use crate::config;
use crate::config::{Config, ConfigView, Environment, EnvironmentView};
use crate::error;
use crate::error::{Error, ErrorView, Result, ResultView};
use crate::hexadecimal;
use crate::ids;
use crate::ids::Uuid;
use crate::protocol as p;
use crate::sync;
use crate::sync::{Options, OptionsView, Outcome};
use crate::text;
use vstd::prelude::*;

pub mod doctor;
pub mod render;
pub mod report;

verus! {

/// Which formats `--jpg` and `--raw` ask for.
pub open spec fn wanted_formats(jpg: bool, raw: bool) -> (bool, bool) {
    if jpg == raw {
        (true, true)
    } else {
        (jpg, raw)
    }
}

/// `--jpg`/`--raw` are additive; neither flag means "both".
pub fn formats(jpg: bool, raw: bool) -> (wanted: (bool, bool))
    ensures
        wanted == wanted_formats(jpg, raw),
{
    if jpg && !raw {
        (true, false)
    } else if raw && !jpg {
        (false, true)
    } else {
        (true, true)
    }
}

/// What `pull` was told on the command line. The timeout is in milliseconds.
#[derive(Debug)]
pub struct PullArgs {
    pub dest: Option<String>,
    pub address: Option<String>,
    pub timeout: u64,
    pub jpg: bool,
    pub raw: bool,
    pub last: Option<usize>,
    pub dir: Option<String>,
    pub no_ble: bool,
    pub no_power_off: bool,
    pub flatten: bool,
    pub dry_run: bool,
    pub host: Option<String>,
    pub wifi_backend: Option<String>,
    pub wifi_interface: Option<String>,
    pub min_battery: Option<i8>,
}

/// What `pull` was told, mathematically.
#[verifier::ext_equal]
pub struct PullArgsView {
    pub dest: Option<Seq<char>>,
    pub address: Option<Seq<char>>,
    pub timeout: u64,
    pub jpg: bool,
    pub raw: bool,
    pub last: Option<usize>,
    pub dir: Option<Seq<char>>,
    pub no_ble: bool,
    pub no_power_off: bool,
    pub flatten: bool,
    pub dry_run: bool,
    pub host: Option<Seq<char>>,
    pub wifi_backend: Option<Seq<char>>,
    pub wifi_interface: Option<Seq<char>>,
    pub min_battery: Option<i8>,
}

impl View for PullArgs {
    type V = PullArgsView;

    open spec fn view(&self) -> PullArgsView {
        PullArgsView {
            dest: self.dest.deep_view(),
            address: self.address.deep_view(),
            timeout: self.timeout,
            jpg: self.jpg,
            raw: self.raw,
            last: self.last,
            dir: self.dir.deep_view(),
            no_ble: self.no_ble,
            no_power_off: self.no_power_off,
            flatten: self.flatten,
            dry_run: self.dry_run,
            host: self.host.deep_view(),
            wifi_backend: self.wifi_backend.deep_view(),
            wifi_interface: self.wifi_interface.deep_view(),
            min_battery: self.min_battery,
        }
    }
}

pub open spec fn given_or<T>(given: Option<T>, otherwise: T) -> T {
    match given {
        Some(given) => given,
        None => otherwise,
    }
}

pub open spec fn given_or_configured<T>(given: Option<T>, configured: Option<T>) -> Option<T> {
    if given is Some {
        given
    } else {
        configured
    }
}

/// Whether the card's directories are kept: where the configuration says so, and
/// the command line does not ask to ignore them.
pub open spec fn are_dirs_kept(config: ConfigView, flatten: bool) -> bool {
    config.keep_dirs && !flatten
}

pub fn keeps_dirs(config: &Config, flatten: bool) -> (yes: bool)
    ensures
        yes == are_dirs_kept(config@, flatten),
{
    config.keep_dirs && !flatten
}

/// How to sync, by the command line and, where that is silent, by the
/// configuration. The use of Bluetooth is the command line's alone.
pub open spec fn pull_wish(
    config: ConfigView,
    args: PullArgsView,
    env: EnvironmentView,
) -> OptionsView {
    let configured = sync::configured(config, args.dest, env);
    let (jpeg, raw) = wanted_formats(args.jpg, args.raw);
    OptionsView {
        use_ble: !args.no_ble,
        jpeg,
        raw,
        last: args.last,
        directory: args.dir,
        dry_run: args.dry_run,
        keep_dirs: are_dirs_kept(config, args.flatten),
        address: given_or_configured(args.address, configured.address),
        scan_timeout: args.timeout,
        host: given_or(args.host, configured.host),
        wifi_backend: given_or_configured(args.wifi_backend, configured.wifi_backend),
        wifi_interface: given_or_configured(args.wifi_interface, configured.wifi_interface),
        min_battery: given_or(args.min_battery, configured.min_battery),
        power_off: configured.power_off && !args.no_power_off,
        ..configured
    }
}

/// How to sync, by the command line and the configuration.
pub fn pull_options(config: &Config, args: PullArgs, env: &Environment) -> (options: Options)
    ensures
        options@ == pull_wish(config@, args@, env@),
{
    let ghost asked = args@;
    let dest = match &args.dest {
        Some(dest) => Some(dest.as_str()),
        None => None,
    };
    let mut options = Options::from_config(config, dest, env);
    let (jpeg, raw) = formats(args.jpg, args.raw);
    options.use_ble = !args.no_ble;
    options.jpeg = jpeg;
    options.raw = raw;
    options.last = args.last;
    options.directory = args.dir;
    options.dry_run = args.dry_run;
    options.keep_dirs = keeps_dirs(config, args.flatten);
    if args.address.is_some() {
        options.address = args.address;
    }
    options.scan_timeout = args.timeout;
    match args.host {
        Some(host) => {
            options.host = host;
        },
        None => {},
    }
    if args.wifi_backend.is_some() {
        options.wifi_backend = args.wifi_backend;
    }
    if args.wifi_interface.is_some() {
        options.wifi_interface = args.wifi_interface;
    }
    match args.min_battery {
        Some(floor) => {
            options.min_battery = floor;
        },
        None => {},
    }
    if args.no_power_off {
        options.power_off = false;
    }
    assert(options@ =~= pull_wish(config@, asked, env@));
    options
}

/// The process exit code of a sync that ran: 1 where some files failed.
pub fn outcome_exit_code(outcome: &Outcome) -> (code: u8)
    ensures
        code == if outcome@.failed.len() == 0 {
            0u8
        } else {
            1u8
        },
{
    if outcome.ok() {
        0
    } else {
        1
    }
}

/// The process exit code of a scan that ran: 1 where a person is told that it found
/// no camera.
pub fn scan_exit_code(found: &[DiscoveredCamera], as_json: bool) -> (code: u8)
    ensures
        code == if found@.len() == 0 && !as_json {
            1u8
        } else {
            0u8
        },
{
    if found.len() == 0 && !as_json {
        1
    } else {
        0
    }
}

/// What a photo given as DIR/FILE names.
pub open spec fn photo_named(key: Seq<char>) -> ResultView<PhotoView> {
    let slash = text::rfind(key, '/');
    if 0 < slash < key.len() - 1 {
        Ok(PhotoView { directory: key.take(slash), filename: key.skip(slash + 1) })
    } else {
        Err(
            ErrorView::Config(
                text::quoted_form(key)
                    + " must be given as DIR/FILE, e.g. 100RICOH/R0001234.JPG"@,
            ),
        )
    }
}

pub fn parse_photo_key(key: &str) -> (photo: Result<PhotoRef>)
    ensures
        error::seen(photo) == photo_named(key@),
{
    let chars = text::chars_of(key);
    let count: usize = chars.len();
    match text::rfind_in(&chars, '/') {
        Some(slash) => {
            if slash > 0 && slash < count - 1 {
                let directory = text::text_of(&chars, 0, slash);
                let filename = text::text_of(&chars, slash + 1, count);
                assert(directory@ =~= key@.take(slash as int));
                assert(filename@ =~= key@.skip(slash + 1));
                return Ok(PhotoRef { directory, filename });
            }
        },
        None => {},
    }
    let mut detail = text::quoted(key);
    detail.append(" must be given as DIR/FILE, e.g. 100RICOH/R0001234.JPG");
    Err(Error::Config(detail))
}

/// The names of the documented characteristics, as shown to a person.
pub open spec fn known_names() -> Seq<char> {
    text::joined(p::profile().map_values(|entry: p::CharacteristicView| entry.name), ", "@)
}

/// What a UUID, or one of the friendly names `doctor` prints, stands for.
pub open spec fn characteristic_meant(name_or_uuid: Seq<char>) -> ResultView<Uuid> {
    match ids::uuid_value(name_or_uuid) {
        Some(value) => Ok(value as u128),
        None => match p::documented(name_or_uuid) {
            Some(entry) => Ok(entry.uuid),
            None => Err(
                ErrorView::Config(
                    text::quoted_form(name_or_uuid)
                        + " is neither a UUID nor a known characteristic. Known: "@
                        + known_names(),
                ),
            ),
        },
    }
}

/// Accept either a raw UUID or one of the friendly names `doctor` prints.
pub fn resolve_characteristic(name_or_uuid: &str) -> (uuid: Result<Uuid>)
    ensures
        error::seen(uuid) == characteristic_meant(name_or_uuid@),
{
    match ids::parse_uuid(name_or_uuid) {
        Some(uuid) => {
            return Ok(uuid);
        },
        None => {},
    }
    match p::characteristic_named(name_or_uuid) {
        Some(entry) => Ok(entry.uuid),
        None => {
            let table = p::known_characteristics();
            let mut names: Vec<String> = Vec::new();
            let mut i: usize = 0;
            while i < table.len()
                invariant
                    i <= table@.len(),
                    table.deep_view() == p::profile(),
                    names@.len() == i,
                    forall|j: int|
                        0 <= j < i ==> (#[trigger] names@[j])@ == p::profile()[j].name,
                decreases table@.len() - i,
            {
                assert(p::profile()[i as int] == table@[i as int]@);
                names.push(table[i].name.to_owned());
                i += 1;
            }
            assert(names.deep_view() =~= p::profile().map_values(
                |entry: p::CharacteristicView| entry.name,
            ));
            let mut detail = text::quoted(name_or_uuid);
            detail.append(" is neither a UUID nor a known characteristic. Known: ");
            detail.append(text::join(&names, ", ").as_str());
            Err(Error::Config(detail))
        },
    }
}

/// A text without white space and colons.
pub open spec fn cleaned(text: Seq<char>) -> Seq<char>
    decreases text.len(),
{
    if text.len() == 0 {
        seq![]
    } else if text::is_white(text.last()) || text.last() == ':' {
        cleaned(text.drop_last())
    } else {
        cleaned(text.drop_last()).push(text.last())
    }
}

/// The bytes that a text writes in hexadecimal, white space and colons left out.
pub open spec fn bytes_written_as(text: Seq<char>) -> ResultView<Seq<u8>> {
    let digits = cleaned(text);
    if digits.len() == 0 || !hexadecimal::even_bytes(digits) {
        Err(ErrorView::Config(text::quoted_form(text) + " is not an even-length hex string"@))
    } else {
        match hexadecimal::paired_bytes(digits) {
            Some(bytes) => Ok(bytes),
            None => Err(
                ErrorView::Config(text::quoted_form(text) + " contains a non-hex digit"@),
            ),
        }
    }
}

fn clean(text: &str) -> (digits: String)
    ensures
        digits@ == cleaned(text@),
{
    let chars = text::chars_of(text);
    let mut digits = String::new();
    let mut i: usize = 0;
    assert(text@.take(0) =~= Seq::empty());
    assert(digits@ =~= Seq::empty());
    while i < chars.len()
        invariant
            i <= chars@.len(),
            chars@ == text@,
            digits@ == cleaned(text@.take(i as int)),
        decreases chars@.len() - i,
    {
        proof {
            assert(text@.take(i + 1).drop_last() =~= text@.take(i as int));
            assert(text@.take(i + 1).last() == chars@[i as int]);
        }
        if !text::white(chars[i]) && chars[i] != ':' {
            digits.push(chars[i]);
        }
        i += 1;
    }
    assert(text@.take(text@.len() as int) =~= text@);
    digits
}

/// Whether [`parse_hex`] can read a text: no character of it may lie across two
/// bytes' worth of digits.
pub fn is_hex_readable(text: &str) -> (yes: bool)
    ensures
        yes == (hexadecimal::even_bytes(cleaned(text@)) ==> hexadecimal::cuts_in_pairs(
            cleaned(text@),
        )),
{
    let digits = clean(text);
    !hexadecimal::has_even_bytes(digits.as_str()) || hexadecimal::readable_in_pairs(
        digits.as_str(),
    )
}

pub fn parse_hex(text: &str) -> (bytes: Result<Vec<u8>>)
    requires
        hexadecimal::even_bytes(cleaned(text@)) ==> hexadecimal::cuts_in_pairs(cleaned(text@)),
    ensures
        error::seen(bytes) == bytes_written_as(text@),
{
    let digits = clean(text);
    if digits.as_str().unicode_len() == 0 || !hexadecimal::has_even_bytes(digits.as_str()) {
        let mut detail = text::quoted(text);
        detail.append(" is not an even-length hex string");
        return Err(Error::Config(detail));
    }
    match hexadecimal::pair_bytes(digits.as_str()) {
        Some(bytes) => Ok(bytes),
        None => {
            let mut detail = text::quoted(text);
            detail.append(" contains a non-hex digit");
            Err(Error::Config(detail))
        },
    }
}

pub fn hex(bytes: &[u8]) -> (text: String)
    ensures
        text@ == hexadecimal::hex_of(bytes@),
{
    hexadecimal::hex_text(bytes)
}

/// Every key of the configuration has an equivalent on the command line that
/// overrides it, and holds where that is not given.
pub proof fn lemma_flags_override_the_configuration(
    config: ConfigView,
    args: PullArgsView,
    env: EnvironmentView,
)
    ensures
        ({
            let wish = pull_wish(config, args, env);
            &&& wish.dest == config::destination(config, args.dest, env)
            &&& args.dest matches Some(dest) ==> wish.dest == config::expanded(dest, env)
            &&& wish.address == if args.address is Some {
                args.address
            } else {
                config.address
            }
            &&& wish.wifi_backend == if args.wifi_backend is Some {
                args.wifi_backend
            } else {
                config.wifi_backend
            }
            &&& wish.wifi_interface == if args.wifi_interface is Some {
                args.wifi_interface
            } else {
                config.wifi_interface
            }
            &&& Some(wish.host) == if args.host is Some {
                args.host
            } else {
                Some(config.host)
            }
            &&& Some(wish.min_battery) == if args.min_battery is Some {
                args.min_battery
            } else {
                Some(config.min_battery)
            }
            &&& args.no_power_off ==> !wish.power_off
            &&& !args.no_power_off ==> wish.power_off == config.power_off
            &&& args.flatten ==> !wish.keep_dirs
            &&& !args.flatten ==> wish.keep_dirs == config.keep_dirs
        }),
{
}

/// Asked for neither format or for both, both are pulled.
pub proof fn lemma_neither_format_means_both(jpg: bool, raw: bool)
    ensures
        jpg == raw ==> wanted_formats(jpg, raw) == (true, true),
        jpg != raw ==> wanted_formats(jpg, raw) == (jpg, raw),
{
}

/// A photo's key names that photo.
pub proof fn lemma_keys_name_their_photo(photo: PhotoView)
    requires
        photo.directory.len() > 0,
        photo.filename.len() > 0,
        forall|i: int| 0 <= i < photo.filename.len() ==> photo.filename[i] != '/',
    ensures
        photo_named(photo.key()) == Ok::<PhotoView, ErrorView>(photo),
{
    let key = photo.key();
    text::lemma_rfind(key, '/');
    let slash = photo.directory.len() as int;
    assert(key[slash] == '/');
    assert forall|i: int| slash < i < key.len() implies key[i] != '/' by {
        assert(key[i] == photo.filename[i - slash - 1]);
    }
    assert(text::rfind(key, '/') == slash);
    assert(key.take(slash) =~= photo.directory);
    assert(key.skip(slash + 1) =~= photo.filename);
}

/// What is written in hexadecimal reads back, whatever the case of each letter, and
/// with white space and colons wherever they stand. What [`hex`] writes is such a
/// text.
pub proof fn lemma_hex_reads_back(text: Seq<char>, bytes: Seq<u8>)
    requires
        bytes.len() > 0,
        text::ascii_lower(cleaned(text)) == hexadecimal::hex_of(bytes),
    ensures
        hexadecimal::cuts_in_pairs(cleaned(text)),
        bytes_written_as(text) == Ok::<Seq<u8>, ErrorView>(bytes),
        bytes_written_as(hexadecimal::hex_of(bytes)) == Ok::<Seq<u8>, ErrorView>(bytes),
{
    hexadecimal::lemma_hex_reads_in_either_case(cleaned(text), bytes);
    hexadecimal::lemma_hex_round_trips(bytes);
    lemma_digits_are_clean(bytes);
}

proof fn lemma_digits_are_clean(bytes: Seq<u8>)
    ensures
        cleaned(hexadecimal::hex_of(bytes)) == hexadecimal::hex_of(bytes),
    decreases bytes.len(),
{
    if bytes.len() > 0 {
        lemma_digits_are_clean(bytes.drop_last());
        let before = hexadecimal::hex_of(bytes.drop_last());
        let high = hexadecimal::hex_digit(bytes.last() as nat / 16);
        let low = hexadecimal::hex_digit(bytes.last() as nat % 16);
        let all = hexadecimal::hex_of(bytes);
        assert(all.drop_last() =~= before.push(high));
        assert(before.push(high).drop_last() =~= before);
        assert(all =~= before.push(high).push(low));
        assert(cleaned(before.push(high)) == before.push(high));
    }
}

/// A documented characteristic can be asked for by its name and by its UUID.
pub proof fn lemma_characteristics_resolve(i: int)
    requires
        0 <= i < p::profile().len(),
    ensures
        characteristic_meant(p::profile()[i].name) == Ok::<Uuid, ErrorView>(p::profile()[i].uuid),
        characteristic_meant(ids::uuid_chars(p::profile()[i].uuid)) == Ok::<Uuid, ErrorView>(
            p::profile()[i].uuid,
        ),
{
    p::lemma_names_are_no_uuids(i);
    p::lemma_entries_resolve(i);
    ids::lemma_uuid_round_trips(p::profile()[i].uuid);
}

/// What only the command line says is followed as it was given: whether Bluetooth is
/// used, how long to scan, how many files, of which directory and format, and whether
/// it is a dry run.
pub proof fn lemma_what_only_the_command_line_says(
    config: ConfigView,
    args: PullArgsView,
    env: EnvironmentView,
)
    ensures
        ({
            let wish = pull_wish(config, args, env);
            &&& wish.use_ble == !args.no_ble
            &&& wish.scan_timeout == args.timeout
            &&& wish.last == args.last
            &&& wish.directory == args.dir
            &&& wish.dry_run == args.dry_run
            &&& args.jpg ==> wish.jpeg
            &&& args.raw ==> wish.raw
            &&& args.jpg && !args.raw ==> !wish.raw
            &&& args.raw && !args.jpg ==> !wish.jpeg
            &&& !args.jpg && !args.raw ==> wish.jpeg && wish.raw
        }),
{
}

/// A photo is named exactly where something stands before the last slash and
/// something behind it, and then by those.
pub proof fn lemma_what_names_a_photo(key: Seq<char>)
    ensures
        match photo_named(key) {
            Ok(photo) => {
                &&& photo.key() == key
                &&& photo.directory.len() > 0
                &&& photo.filename.len() > 0
                &&& forall|i: int| 0 <= i < photo.filename.len() ==> photo.filename[i] != '/'
            },
            Err(_) => {
                ||| key.len() > 0 && key.last() == '/'
                ||| forall|i: int| 0 < i < key.len() ==> key[i] != '/'
            },
        },
{
    text::lemma_rfind(key, '/');
    let slash = text::rfind(key, '/');
    if 0 < slash < key.len() - 1 {
        let photo = PhotoView { directory: key.take(slash), filename: key.skip(slash + 1) };
        assert(photo.key() =~= key);
    }
}

/// Only white space and colons are cleaned away, wherever they stand, and the order of
/// the rest is kept.
pub proof fn lemma_cleaning(first: Seq<char>, second: Seq<char>)
    ensures
        cleaned(first + second) == cleaned(first) + cleaned(second),
        (forall|i: int|
            0 <= i < first.len() ==> text::is_white(#[trigger] first[i]) || first[i] == ':')
            ==> cleaned(first) == Seq::<char>::empty(),
        (forall|i: int|
            0 <= i < first.len() ==> !text::is_white(#[trigger] first[i]) && first[i] != ':')
            ==> cleaned(first) == first,
    decreases first.len() + second.len(),
{
    if second.len() > 0 {
        assert((first + second).drop_last() =~= first + second.drop_last());
        lemma_cleaning(first, second.drop_last());
        assert(cleaned(first + second) =~= cleaned(first) + cleaned(second));
    } else {
        assert(first + second =~= first);
        if first.len() > 0 {
            let front = first.drop_last();
            lemma_cleaning(front, second);
            assert(forall|i: int| 0 <= i < front.len() ==> front[i] == first[i]);
            assert(first.last() == first[first.len() - 1]);
        }
    }
}

/// What is read as bytes on the command line is nothing but digits, white space and
/// colons, and at least one pair of digits; anything else is refused.
pub proof fn lemma_what_reads_as_bytes(text: Seq<char>, bytes: Seq<u8>, i: int)
    requires
        bytes_written_as(text) == Ok::<Seq<u8>, ErrorView>(bytes),
        0 <= i < cleaned(text).len(),
    ensures
        bytes.len() > 0,
        cleaned(text).len() == 2 * bytes.len(),
        hexadecimal::hex_digit_value(cleaned(text)[i]) is Some || (cleaned(text)[i] == '+' && i % 2
            == 0),
{
    hexadecimal::lemma_only_digits_are_read(cleaned(text), i);
}

} // verus!
