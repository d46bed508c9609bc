//! What a person is shown of a sync's events.

use crate::ble::DiscoveredView;
use crate::camera::PropsView;
use crate::error;
use crate::error::ErrorView;
use crate::json;
use crate::json::{Json, JsonView};
use crate::protocol as p;
use crate::sync;
use crate::sync::bring_up;
use crate::sync::pull;
use crate::sync::run;
use crate::sync::wifi;
use crate::sync::OutcomeView;
use crate::text;
use vstd::prelude::*;

verus! {

/// The step between the numbers that a 64-bit floating point number can hold
/// around `n`.
pub open spec fn spacing(n: nat) -> nat
    decreases n,
{
    if n < 0x20_0000_0000_0000 {
        1
    } else {
        2 * spacing(n / 2)
    }
}

/// `n` divided by `d`, rounded to the nearest whole number, and to the even one
/// where two are as near.
pub open spec fn rounded(n: nat, d: nat) -> nat {
    let below = n / d;
    let rest = n % d;
    if 2 * rest < d || (2 * rest == d && below % 2 == 0) {
        below
    } else {
        below + 1
    }
}

/// The whole number that a 64-bit floating point number holds in place of `n`.
pub open spec fn as_held(n: nat) -> nat {
    rounded(n, spacing(n)) * spacing(n)
}

/// So many bytes in MiB, with one decimal.
pub open spec fn mib_text(bytes: nat) -> Seq<char> {
    let tenths = rounded(10 * as_held(bytes), 1048576);
    text::decimal(tenths / 10) + "."@ + text::decimal(tenths % 10)
}

/// So many bytes in KiB, without decimals.
pub open spec fn kib_text(bytes: nat) -> Seq<char> {
    text::decimal(rounded(as_held(bytes), 1024))
}

fn spacing_of(n: u64) -> (step: u64)
    ensures
        step == spacing(n as nat),
        0 < step <= 4096,
        step > 1 ==> step * 0x10_0000_0000_0000 <= n,
    decreases n,
{
    if n < 0x20_0000_0000_0000 {
        1
    } else {
        let half: u64 = spacing_of(n / 2);
        2 * half
    }
}

fn round_to(n: u128, d: u128) -> (whole: u128)
    requires
        0 < d <= 0x10_0000_0000,
        n <= 0x1_0000_0000_0000_0000_0000,
    ensures
        whole == rounded(n as nat, d as nat),
        whole <= n + 1,
{
    let below: u128 = n / d;
    let rest: u128 = n % d;
    assert(below <= n) by (nonlinear_arith)
        requires
            below == n / d,
            d >= 1,
    ;
    if 2 * rest < d || (2 * rest == d && below % 2 == 0) {
        below
    } else {
        below + 1
    }
}

fn held(n: u64) -> (value: u128)
    ensures
        value == as_held(n as nat),
        value <= 0x2_0000_0000_0000_0000,
{
    let step: u64 = spacing_of(n);
    let count: u128 = round_to(n as u128, step as u128);
    assert(count * step <= 0x2_0000_0000_0000_0000) by (nonlinear_arith)
        requires
            count <= n / step + 1,
            0 < step <= 4096,
            n <= 0xffff_ffff_ffff_ffff,
    ;
    count * step as u128
}

fn mib(bytes: u64) -> (text: String)
    ensures
        text@ == mib_text(bytes as nat),
{
    let tenths: u128 = round_to(10 * held(bytes), 1048576);
    let mut text = text::wide_decimal_text(tenths / 10);
    text.append(".");
    text.append(text::wide_decimal_text(tenths % 10).as_str());
    text
}

/// So many bytes in KiB, without decimals.
pub fn kib(bytes: u64) -> (text: String)
    ensures
        text@ == kib_text(bytes as nat),
{
    text::wide_decimal_text(round_to(held(bytes), 1024))
}

/// The text of an event's member, or else another.
pub open spec fn text_or(event: JsonView, key: Seq<char>, otherwise: Seq<char>) -> Seq<char> {
    match json::text_in(json::member(event, key)) {
        Some(text) => text,
        None => otherwise,
    }
}

/// The number that an event's member is, or else another.
pub open spec fn number_or(event: JsonView, key: Seq<char>, otherwise: i64) -> i64 {
    match json::integer_in(json::member(event, key)) {
        Some(number) => number,
        None => otherwise,
    }
}

/// Whether an event's member is set.
pub open spec fn is_set(event: JsonView, key: Seq<char>) -> bool {
    json::flag_in(json::member(event, key)) == Some(true)
}

/// How many items an event's member has.
pub open spec fn size_of_member(event: JsonView, key: Seq<char>) -> nat {
    match json::items_in(json::member(event, key)) {
        Some(items) => items.len(),
        None => 0,
    }
}

/// How many bytes an event says were written.
pub open spec fn bytes_in(event: JsonView) -> nat {
    match json::member(event, "bytes_written"@) {
        Some(JsonView::Number(Some(n))) => if 0 <= n <= u64::MAX {
            n as nat
        } else {
            0
        },
        _ => 0,
    }
}

pub open spec fn awake_line(event: JsonView) -> Seq<char> {
    let line = "  camera was "@ + text::lowercase_form(text_or(event, "was"@, "?"@));
    if is_set(event, "woken_by_us"@) {
        line + " -> woke it"@
    } else {
        line
    }
}

/// What sums up a sync.
pub open spec fn done_line(event: JsonView) -> Seq<char> {
    let line = "  "@ + (if is_set(event, "dry_run"@) {
        "would download"@
    } else {
        "downloaded"@
    }) + " "@ + text::decimal(size_of_member(event, "downloaded"@)) + " files ("@ + mib_text(
        bytes_in(event),
    ) + " MiB), skipped "@ + text::decimal(size_of_member(event, "skipped"@));
    if size_of_member(event, "failed"@) > 0 {
        line + ", "@ + text::decimal(size_of_member(event, "failed"@)) + " FAILED"@
    } else {
        line
    }
}

/// The line that an event of a kind is shown as; nothing where it is not worth
/// showing.
pub open spec fn shown_as(kind: Seq<char>, event: JsonView) -> Option<Seq<char>> {
    if kind == "ble.scan"@ {
        Some("  scanning for the camera over Bluetooth..."@)
    } else if kind == "ble.found"@ {
        Some(
            "  found "@ + text_or(event, "name"@, "camera"@) + " at "@
                + text_or(event, "address"@, "?"@),
        )
    } else if kind == "ble.awake"@ {
        Some(awake_line(event))
    } else if kind == "ble.battery"@ {
        Some(
            "  battery "@ + text::signed_decimal(number_or(event, "level"@, 0) as int) + "% ("@
                + text::lowercase_form(text_or(event, "source"@, "?"@)) + ")"@,
        )
    } else if kind == "ble.ap_up"@ {
        Some("  camera Wi-Fi up: "@ + text_or(event, "ssid"@, "?"@))
    } else if kind == "ble.skipped"@ {
        Some("  skipping Bluetooth (turn the camera's Wi-Fi on by hand)"@)
    } else if kind == "wifi.join"@ {
        Some(
            "  joining "@ + text_or(event, "ssid"@, "?"@) + " (was on "@
                + text_or(event, "from"@, "nothing"@) + ")"@,
        )
    } else if kind == "http.props"@ {
        Some(
            "  "@ + text_or(event, "model"@, "?"@) + ", battery "@
                + text::signed_decimal(number_or(event, "battery"@, (-1) as i64) as int) + "%"@,
        )
    } else if kind == "http.listed"@ {
        Some(
            "  "@ + text::signed_decimal(number_or(event, "total"@, 0) as int)
                + " files on the card"@,
        )
    } else if kind == "plan"@ {
        Some(
            "  "@ + text::signed_decimal(number_or(event, "pending"@, 0) as int) + " to download, "@
                + text::signed_decimal(number_or(event, "skipped"@, 0) as int) + " already here"@,
        )
    } else if kind == "download.start"@ {
        Some(
            "  ["@ + text::signed_decimal(number_or(event, "index"@, 0) as int) + "/"@
                + text::signed_decimal(number_or(event, "of"@, 0) as int) + "] "@
                + text_or(event, "photo"@, "?"@),
        )
    } else if kind == "download.failed"@ {
        Some("      FAILED: "@ + text_or(event, "error"@, "?"@))
    } else if kind == "ledger.save_failed"@ {
        Some("  WARNING: could not save the ledger: "@ + text_or(event, "error"@, "?"@))
    } else if kind == "wifi.restore"@ {
        Some("  back to "@ + text_or(event, "ssid"@, "the previous network"@))
    } else if kind == "wifi.restore_failed"@ {
        Some(
            "  WARNING: could not restore the previous network: "@ + text_or(event, "error"@, "?"@),
        )
    } else if kind == "ble.power_off_failed"@ {
        Some("  note: could not power the camera off: "@ + text_or(event, "error"@, "?"@))
    } else if kind == "done"@ {
        Some(done_line(event))
    } else {
        None
    }
}

/// The line that an event is shown as.
pub open spec fn shown(event: JsonView) -> Option<Seq<char>> {
    match json::text_in(json::member(event, "event"@)) {
        Some(kind) => shown_as(kind, event),
        None => None,
    }
}

fn member_or(event: &Json, key: &str, otherwise: &str) -> (text: String)
    ensures
        text@ == text_or(event@, key@, otherwise@),
{
    match event.get(key) {
        Some(member) => match member.as_str() {
            Some(text) => text.to_owned(),
            None => otherwise.to_owned(),
        },
        None => otherwise.to_owned(),
    }
}

fn integer_or(event: &Json, key: &str, otherwise: i64) -> (number: i64)
    ensures
        number == number_or(event@, key@, otherwise),
{
    match event.get(key) {
        Some(member) => match member.as_i64() {
            Some(number) => number,
            None => otherwise,
        },
        None => otherwise,
    }
}

fn flag(event: &Json, key: &str) -> (yes: bool)
    ensures
        yes == is_set(event@, key@),
{
    match event.get(key) {
        Some(member) => match member.as_bool() {
            Some(yes) => yes,
            None => false,
        },
        None => false,
    }
}

fn count(event: &Json, key: &str) -> (items: usize)
    ensures
        items == size_of_member(event@, key@),
{
    match event.get(key) {
        Some(member) => match member.as_array() {
            Some(items) => items.len(),
            None => 0,
        },
        None => 0,
    }
}

fn bytes_written(event: &Json) -> (bytes: u64)
    ensures
        bytes == bytes_in(event@),
{
    match event.get("bytes_written") {
        Some(Json::Number(Some(n))) => {
            if 0 <= *n && *n <= 0xffff_ffff_ffff_ffff {
                *n as u64
            } else {
                0
            }
        },
        _ => 0,
    }
}

fn awake(event: &Json) -> (line: String)
    ensures
        line@ == awake_line(event@),
{
    let mut line = "  camera was ".to_owned();
    line.append(text::lowercase(member_or(event, "was", "?").as_str()).as_str());
    if flag(event, "woken_by_us") {
        line.append(" -> woke it");
    }
    line
}

fn done(event: &Json) -> (line: String)
    ensures
        line@ == done_line(event@),
{
    let mut line = "  ".to_owned();
    if flag(event, "dry_run") {
        line.append("would download");
    } else {
        line.append("downloaded");
    }
    line.append(" ");
    line.append(text::decimal_text(count(event, "downloaded") as u64).as_str());
    line.append(" files (");
    line.append(mib(bytes_written(event)).as_str());
    line.append(" MiB), skipped ");
    line.append(text::decimal_text(count(event, "skipped") as u64).as_str());
    let failed: usize = count(event, "failed");
    if failed > 0 {
        line.append(", ");
        line.append(text::decimal_text(failed as u64).as_str());
        line.append(" FAILED");
    }
    line
}

fn render_kind(kind: &str, event: &Json) -> (line: Option<String>)
    ensures
        line.deep_view() == shown_as(kind@, event@),
{
    if text::same(kind, "ble.scan") {
        return Some("  scanning for the camera over Bluetooth...".to_owned());
    }
    if text::same(kind, "ble.found") {
        let mut line = "  found ".to_owned();
        line.append(member_or(event, "name", "camera").as_str());
        line.append(" at ");
        line.append(member_or(event, "address", "?").as_str());
        return Some(line);
    }
    if text::same(kind, "ble.awake") {
        return Some(awake(event));
    }
    if text::same(kind, "ble.battery") {
        let mut line = "  battery ".to_owned();
        line.append(text::signed_text(integer_or(event, "level", 0)).as_str());
        line.append("% (");
        line.append(text::lowercase(member_or(event, "source", "?").as_str()).as_str());
        line.append(")");
        return Some(line);
    }
    if text::same(kind, "ble.ap_up") {
        let mut line = "  camera Wi-Fi up: ".to_owned();
        line.append(member_or(event, "ssid", "?").as_str());
        return Some(line);
    }
    if text::same(kind, "ble.skipped") {
        return Some("  skipping Bluetooth (turn the camera's Wi-Fi on by hand)".to_owned());
    }
    if text::same(kind, "wifi.join") {
        let mut line = "  joining ".to_owned();
        line.append(member_or(event, "ssid", "?").as_str());
        line.append(" (was on ");
        line.append(member_or(event, "from", "nothing").as_str());
        line.append(")");
        return Some(line);
    }
    if text::same(kind, "http.props") {
        let mut line = "  ".to_owned();
        line.append(member_or(event, "model", "?").as_str());
        line.append(", battery ");
        line.append(text::signed_text(integer_or(event, "battery", -1)).as_str());
        line.append("%");
        return Some(line);
    }
    if text::same(kind, "http.listed") {
        let mut line = "  ".to_owned();
        line.append(text::signed_text(integer_or(event, "total", 0)).as_str());
        line.append(" files on the card");
        return Some(line);
    }
    if text::same(kind, "plan") {
        let mut line = "  ".to_owned();
        line.append(text::signed_text(integer_or(event, "pending", 0)).as_str());
        line.append(" to download, ");
        line.append(text::signed_text(integer_or(event, "skipped", 0)).as_str());
        line.append(" already here");
        return Some(line);
    }
    if text::same(kind, "download.start") {
        let mut line = "  [".to_owned();
        line.append(text::signed_text(integer_or(event, "index", 0)).as_str());
        line.append("/");
        line.append(text::signed_text(integer_or(event, "of", 0)).as_str());
        line.append("] ");
        line.append(member_or(event, "photo", "?").as_str());
        return Some(line);
    }
    if text::same(kind, "download.failed") {
        let mut line = "      FAILED: ".to_owned();
        line.append(member_or(event, "error", "?").as_str());
        return Some(line);
    }
    if text::same(kind, "ledger.save_failed") {
        let mut line = "  WARNING: could not save the ledger: ".to_owned();
        line.append(member_or(event, "error", "?").as_str());
        return Some(line);
    }
    if text::same(kind, "wifi.restore") {
        let mut line = "  back to ".to_owned();
        line.append(member_or(event, "ssid", "the previous network").as_str());
        return Some(line);
    }
    if text::same(kind, "wifi.restore_failed") {
        let mut line = "  WARNING: could not restore the previous network: ".to_owned();
        line.append(member_or(event, "error", "?").as_str());
        return Some(line);
    }
    if text::same(kind, "ble.power_off_failed") {
        let mut line = "  note: could not power the camera off: ".to_owned();
        line.append(member_or(event, "error", "?").as_str());
        return Some(line);
    }
    if text::same(kind, "done") {
        return Some(done(event));
    }
    None
}

/// Render one sync event. `None` means "not worth showing unless verbose".
pub fn render(event: &Json) -> (line: Option<String>)
    ensures
        line.deep_view() == shown(event@),
{
    match event.get("event") {
        Some(kind) => match kind.as_str() {
            Some(kind) => render_kind(kind, event),
            None => None,
        },
        None => None,
    }
}

/// What is printed of an event: what it is shown as, or, being verbose, at
/// least its name.
pub open spec fn printed(event: JsonView, verbose: bool) -> Option<Seq<char>> {
    if shown(event) is Some {
        shown(event)
    } else if verbose {
        Some("  · "@ + text_or(event, "event"@, "?"@))
    } else {
        None
    }
}

/// The line to print for an event, if any.
pub fn event_line(event: &Json, verbose: bool) -> (line: Option<String>)
    ensures
        line.deep_view() == printed(event@, verbose),
{
    match render(event) {
        Some(line) => Some(line),
        None => {
            if verbose {
                let mut line = "  · ".to_owned();
                line.append(member_or(event, "event", "?").as_str());
                Some(line)
            } else {
                None
            }
        },
    }
}

/// Rounding goes to the nearest whole number, and where two are as near to the even
/// one.
pub proof fn lemma_rounding(n: nat, d: nat)
    requires
        d > 0,
    ensures
        2 * (rounded(n, d) * d) <= 2 * n + d,
        2 * n <= 2 * (rounded(n, d) * d) + d,
        (2 * (rounded(n, d) * d) == 2 * n + d || 2 * n == 2 * (rounded(n, d) * d) + d)
            ==> rounded(n, d) % 2 == 0,
        n % d == 0 ==> rounded(n, d) * d == n,
{
    let below = n / d;
    let rest = n % d;
    vstd::arithmetic::div_mod::lemma_fundamental_div_mod(n as int, d as int);
    assert(d * below == below * d) by (nonlinear_arith);
    assert((below + 1) * d == below * d + d) by (nonlinear_arith);
    assert(n == below * d + rest);
    assert(rest < d);
}

/// A size up to eight pebibytes is shown to the nearest tenth of a MiB, and to the
/// nearest KiB: never further off than half of that.
pub proof fn lemma_sizes_are_shown_to_the_nearest(bytes: nat)
    requires
        bytes < 0x20_0000_0000_0000,
    ensures
        exists|tenths: nat|
            {
                &&& mib_text(bytes) == #[trigger] text::decimal(tenths / 10) + "."@
                    + text::decimal(tenths % 10)
                &&& 2 * (tenths * 1048576) <= 20 * bytes + 1048576
                &&& 20 * bytes <= 2 * (tenths * 1048576) + 1048576
            },
        exists|whole: nat|
            {
                &&& kib_text(bytes) == #[trigger] text::decimal(whole)
                &&& 2 * (whole * 1024) <= 2 * bytes + 1024
                &&& 2 * bytes <= 2 * (whole * 1024) + 1024
            },
{
    lemma_rounding(bytes, 1);
    assert(as_held(bytes) == bytes);
    lemma_rounding(10 * bytes, 1048576);
    lemma_rounding(bytes, 1024);
    let tenths = rounded(10 * bytes, 1048576);
    assert(mib_text(bytes) == text::decimal(tenths / 10) + "."@ + text::decimal(tenths % 10));
    let whole = rounded(bytes, 1024);
    assert(kib_text(bytes) == text::decimal(whole));
}

/// Every event that is worth showing says its facts in its line: the camera that was
/// found, the network that is joined and left, the plan, each file and its place in the
/// row, and each thing that went wrong.
pub proof fn lemma_what_each_event_is_shown_as(
    text: Seq<char>,
    other: Option<Seq<char>>,
    error: ErrorView,
    camera: DiscoveredView,
    level: p::BatteryLevel,
    props: PropsView,
    a: u32,
    b: u32,
    c: u32,
)
    ensures
        shown(run::found_event(camera)) == Some(
            "  found "@ + (match camera.name {
                Some(name) => name,
                None => "camera"@,
            }) + " at "@ + camera.address,
        ),
        shown(bring_up::battery_event(level)) == Some(
            "  battery "@ + text::signed_decimal(level.level as int) + "% ("@
                + text::lowercase_form(level.source.label()) + ")"@,
        ),
        shown(bring_up::ap_up_event(text)) == Some("  camera Wi-Fi up: "@ + text),
        shown(wifi::join_event(text, other)) == Some(
            "  joining "@ + text + " (was on "@ + (match other {
                Some(from) => from,
                None => "nothing"@,
            }) + ")"@,
        ),
        shown(wifi::restore_event(Some(text))) == Some("  back to "@ + text),
        shown(wifi::restore_event(None)) == Some("  back to the previous network"@),
        props.battery matches Some(battery) ==> shown(pull::props_event(props)) == Some(
            "  "@ + props.model + ", battery "@ + text::signed_decimal(battery as int) + "%"@,
        ),
        shown(pull::listed_event(a as nat)) == Some(
            "  "@ + text::signed_decimal(a as int) + " files on the card"@,
        ),
        shown(pull::plan_event(a as nat, b as nat, c as nat)) == Some(
            "  "@ + text::signed_decimal(b as int) + " to download, "@ + text::signed_decimal(
                c as int,
            ) + " already here"@,
        ),
        shown(pull::start_event(text, a as int, b as nat)) == Some(
            "  ["@ + text::signed_decimal(a as int) + "/"@ + text::signed_decimal(b as int) + "] "@
                + text,
        ),
        shown(pull::failed_event(text, error)) == Some(
            "      FAILED: "@ + error::error_message(error),
        ),
        shown(pull::save_failed_event(error)) == Some(
            "  WARNING: could not save the ledger: "@ + error::error_message(error),
        ),
        shown(wifi::restore_failed_event(error)) == Some(
            "  WARNING: could not restore the previous network: "@ + error::error_message(error),
        ),
        shown(run::power_off_failed_event(error)) == Some(
            "  note: could not power the camera off: "@ + error::error_message(error),
        ),
        shown(run::scan_event(other)) is Some,
        shown(run::skipped_event()) is Some,
        shown(bring_up::awake_event(true)) == Some(
            "  camera was "@ + text::lowercase_form("Off"@) + " -> woke it"@,
        ),
        shown(bring_up::awake_event(false)) == Some(
            "  camera was "@ + text::lowercase_form("On"@),
        ),
{
    lemma_kinds();
    lemma_members_named();
    reveal_with_fuel(json::member_from, 5);
    reveal_strlit("  back to ");
    reveal_strlit("the previous network");
    reveal_strlit("  back to the previous network");
    assert("  back to "@ + "the previous network"@ =~= "  back to the previous network"@);
}

/// What sums up a sync counts what was downloaded, skipped and missed, and says so
/// where it was only a dry run.
pub proof fn lemma_how_a_sync_is_summed_up(outcome: OutcomeView)
    ensures
        ({
            let line = "  "@ + (if outcome.dry_run {
                "would download"@
            } else {
                "downloaded"@
            }) + " "@ + text::decimal(outcome.downloaded.len()) + " files ("@ + mib_text(
                outcome.bytes_written as nat,
            ) + " MiB), skipped "@ + text::decimal(outcome.skipped.len());
            shown(sync::done_event(outcome)) == Some(
                if outcome.failed.len() == 0 {
                    line
                } else {
                    line + ", "@ + text::decimal(outcome.failed.len()) + " FAILED"@
                },
            )
        }),
{
    lemma_kinds();
    sync::lemma_what_is_told_at_the_end(outcome, sync::done_event(outcome));
    sync::lemma_events_name_themselves("done"@, sync::outcome_members(outcome));
}

/// Being verbose adds lines and changes none: what is shown is printed either way, and
/// any other event by its name, but only then.
pub proof fn lemma_verbosity(event: JsonView, name: Seq<char>)
    ensures
        shown(event) is Some ==> printed(event, true) == shown(event) && printed(event, false)
            == shown(event),
        shown(event) is None ==> printed(event, false) is None,
        shown(event) is None && json::member(event, "event"@) == Some(JsonView::Text(name))
            ==> printed(event, true) == Some("  · "@ + name),
{
}

proof fn lemma_kinds()
    ensures
        "ble.scan"@.len() == 8,
        "ble.found"@.len() == 9 && "ble.found"@[0] == 'b' && "ble.found"@[4] == 'f',
        "ble.awake"@.len() == 9 && "ble.awake"@[0] == 'b' && "ble.awake"@[4] == 'a' && "ble.awake"@[5] == 'w',
        "ble.battery"@.len() == 11 && "ble.battery"@[0] == 'b' && "ble.battery"@[4] == 'b',
        "ble.ap_up"@.len() == 9 && "ble.ap_up"@[0] == 'b' && "ble.ap_up"@[4] == 'a' && "ble.ap_up"@[5] == 'p',
        "ble.skipped"@.len() == 11 && "ble.skipped"@[0] == 'b' && "ble.skipped"@[4] == 's',
        "wifi.join"@.len() == 9 && "wifi.join"@[0] == 'w',
        "http.props"@.len() == 10,
        "http.listed"@.len() == 11 && "http.listed"@[0] == 'h',
        "plan"@.len() == 4 && "plan"@[0] == 'p',
        "download.start"@.len() == 14,
        "download.failed"@.len() == 15,
        "ledger.save_failed"@.len() == 18,
        "wifi.restore"@.len() == 12,
        "wifi.restore_failed"@.len() == 19,
        "ble.power_off_failed"@.len() == 20,
        "done"@.len() == 4 && "done"@[0] == 'd',
{
    reveal_strlit("ble.scan");
    reveal_strlit("ble.found");
    reveal_strlit("ble.awake");
    reveal_strlit("ble.battery");
    reveal_strlit("ble.ap_up");
    reveal_strlit("ble.skipped");
    reveal_strlit("wifi.join");
    reveal_strlit("http.props");
    reveal_strlit("http.listed");
    reveal_strlit("plan");
    reveal_strlit("download.start");
    reveal_strlit("download.failed");
    reveal_strlit("ledger.save_failed");
    reveal_strlit("wifi.restore");
    reveal_strlit("wifi.restore_failed");
    reveal_strlit("ble.power_off_failed");
    reveal_strlit("done");
}

proof fn lemma_members_named()
    ensures
        "event"@.len() == 5 && "event"@[0] == 'e' && "event"@[1] == 'v',
        "address"@.len() == 7 && "address"@[0] == 'a',
        "name"@.len() == 4 && "name"@[0] == 'n',
        "was"@.len() == 3,
        "woken_by_us"@.len() == 11,
        "level"@.len() == 5 && "level"@[0] == 'l',
        "source"@.len() == 6 && "source"@[0] == 's',
        "ssid"@.len() == 4 && "ssid"@[0] == 's',
        "from"@.len() == 4 && "from"@[0] == 'f',
        "model"@.len() == 5 && "model"@[0] == 'm',
        "battery"@.len() == 7 && "battery"@[0] == 'b',
        "total"@.len() == 5 && "total"@[0] == 't',
        "selected"@.len() == 8,
        "pending"@.len() == 7 && "pending"@[0] == 'p',
        "skipped"@.len() == 7 && "skipped"@[0] == 's',
        "photo"@.len() == 5 && "photo"@[0] == 'p',
        "index"@.len() == 5 && "index"@[0] == 'i',
        "of"@.len() == 2 && "of"@[1] == 'f',
        "error"@.len() == 5 && "error"@[0] == 'e' && "error"@[1] == 'r',
        "downloaded"@.len() == 10,
        "failed"@.len() == 6 && "failed"@[0] == 'f',
        "bytes_written"@.len() == 13,
        "dest"@.len() == 4 && "dest"@[0] == 'd',
        "dry_run"@.len() == 7 && "dry_run"@[0] == 'd',
        "ok"@.len() == 2 && "ok"@[1] == 'k',
{
    reveal_strlit("event");
    reveal_strlit("address");
    reveal_strlit("name");
    reveal_strlit("was");
    reveal_strlit("woken_by_us");
    reveal_strlit("level");
    reveal_strlit("source");
    reveal_strlit("ssid");
    reveal_strlit("from");
    reveal_strlit("model");
    reveal_strlit("battery");
    reveal_strlit("total");
    reveal_strlit("selected");
    reveal_strlit("pending");
    reveal_strlit("skipped");
    reveal_strlit("photo");
    reveal_strlit("index");
    reveal_strlit("of");
    reveal_strlit("error");
    reveal_strlit("downloaded");
    reveal_strlit("failed");
    reveal_strlit("bytes_written");
    reveal_strlit("dest");
    reveal_strlit("dry_run");
    reveal_strlit("ok");
}

} // verus!
