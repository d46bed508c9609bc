//! `gr3sync doctor`: which documented characteristics a camera actually exposes.

use crate::ble;
use crate::ble::Gatt;
use crate::emulator::gatt;
use crate::error;
use crate::error::{Result, ResultView};
use crate::hexadecimal;
use crate::ids;
use crate::ids::Uuid;
use crate::json;
use crate::json::{Json, JsonView};
use crate::protocol as p;
use crate::text;
use vstd::prelude::*;

verus! {

/// What was read of a characteristic, as a JSON value; nothing where it is not
/// exposed.
pub open spec fn value_view(reply: Option<ResultView<Seq<u8>>>) -> JsonView {
    match reply {
        Some(Ok(raw)) => JsonView::Object(
            seq![
                ("hex"@, JsonView::Text(hexadecimal::hex_of(raw))),
                ("text"@, JsonView::Text(p::decoded_text(raw))),
            ],
        ),
        Some(Err(error)) => JsonView::Object(
            seq![("error"@, JsonView::Text(error::error_message(error)))],
        ),
        None => JsonView::Null,
    }
}

/// A characteristic's row in the report.
///
/// Its service and whether it can be written are recorded so that the emulator
/// can rebuild a peripheral from the report: a GATT client reaches a
/// characteristic through its service, not by UUID alone, and a peripheral that
/// takes writes the camera refuses would hide the bugs it is there to catch.
pub open spec fn row_view(
    entry: p::CharacteristicView,
    exposed: bool,
    writable: bool,
    reply: Option<ResultView<Seq<u8>>>,
) -> JsonView {
    JsonView::Object(
        seq![
            ("name"@, JsonView::Text(entry.name)),
            ("uuid"@, JsonView::Text(ids::uuid_chars(entry.uuid))),
            ("service"@, json::optional_text_view(gatt::service_text(entry.uuid))),
            ("exposed"@, JsonView::Bool(exposed)),
            ("writable"@, JsonView::Bool(writable)),
            ("value"@, value_view(reply)),
        ],
    )
}

/// The rows of the documented characteristics.
pub open spec fn rows_view(
    present: Seq<Uuid>,
    writable: Seq<Uuid>,
    replies: Seq<Option<ResultView<Seq<u8>>>>,
) -> Seq<JsonView> {
    Seq::new(
        p::profile().len(),
        |i: int|
            row_view(
                p::profile()[i],
                present.contains(p::profile()[i].uuid),
                writable.contains(p::profile()[i].uuid),
                replies[i],
            ),
    )
}

/// Whether a characteristic is documented.
pub open spec fn is_documented(uuid: Uuid) -> bool {
    p::documented_service(uuid) is Some
}

/// The characteristics that are there and not documented.
pub open spec fn undocumented(present: Seq<Uuid>) -> Seq<Seq<char>>
    decreases present.len(),
{
    if present.len() == 0 {
        seq![]
    } else if is_documented(present.last()) {
        undocumented(present.drop_last())
    } else {
        undocumented(present.drop_last()).push(ids::uuid_chars(present.last()))
    }
}

/// The report.
pub open spec fn report_view(
    present: Seq<Uuid>,
    writable: Seq<Uuid>,
    replies: Seq<Option<ResultView<Seq<u8>>>>,
) -> JsonView {
    JsonView::Object(
        seq![
            ("documented"@, JsonView::Array(rows_view(present, writable, replies))),
            ("undocumented_present"@, json::texts_view(undocumented(present))),
        ],
    )
}

fn value_json(reply: Option<Result<Vec<u8>>>) -> (value: Json)
    ensures
        value@ == value_view(reply_seen(reply)),
{
    match reply {
        Some(Ok(raw)) => {
            let members: Vec<(String, Json)> = vec![
                json::named(
                    "hex",
                    json::of_text(hexadecimal::hex_text(raw.as_slice()).as_str()),
                ),
                json::named("text", json::of_text(p::decode_utf8(raw.as_slice()).as_str())),
            ];
            assert(members.deep_view() =~= value_view(Some(Ok(raw@)))->Object_0);
            json::of_members(members)
        },
        Some(Err(error)) => {
            let members: Vec<(String, Json)> = vec![
                json::named("error", json::of_text(error.message().as_str())),
            ];
            assert(members.deep_view() =~= value_view(Some(Err(error@)))->Object_0);
            json::of_members(members)
        },
        None => Json::Null,
    }
}

/// What came of reading a characteristic, where it was read.
pub open spec fn reply_seen(reply: Option<Result<Vec<u8>>>) -> Option<ResultView<Seq<u8>>> {
    match reply {
        Some(result) => Some(ble::raw_seen(result)),
        None => None,
    }
}

fn holds(list: &Vec<Uuid>, uuid: Uuid) -> (yes: bool)
    ensures
        yes == list@.contains(uuid),
{
    let mut i: usize = 0;
    while i < list.len()
        invariant
            i <= list@.len(),
            forall|j: int| 0 <= j < i ==> list@[j] != uuid,
        decreases list@.len() - i,
    {
        if list[i] == uuid {
            return true;
        }
        i += 1;
    }
    false
}

fn row_json(
    entry: &p::Characteristic,
    exposed: bool,
    writable: bool,
    reply: Option<Result<Vec<u8>>>,
) -> (row: Json)
    ensures
        row@ == row_view(entry@, exposed, writable, reply_seen(reply)),
{
    let service = match p::service_of(entry.uuid) {
        Some(service) => Some(ids::uuid_text(service)),
        None => None,
    };
    let members: Vec<(String, Json)> = vec![
        json::named("name", json::of_text(entry.name)),
        json::named("uuid", json::of_text(ids::uuid_text(entry.uuid).as_str())),
        json::named("service", json::of_optional_text(&service)),
        json::named("exposed", Json::Bool(exposed)),
        json::named("writable", Json::Bool(writable)),
        json::named("value", value_json(reply)),
    ];
    assert(members.deep_view() =~= row_view(
        entry@,
        exposed,
        writable,
        reply_seen(reply),
    )->Object_0);
    json::of_members(members)
}

/// Name the characteristics that are there and not documented.
fn undocumented_texts(present: &Vec<Uuid>) -> (texts: Vec<String>)
    ensures
        texts.deep_view() == undocumented(present@),
{
    let mut texts: Vec<String> = Vec::new();
    let mut i: usize = 0;
    assert(present@.take(0) =~= Seq::empty());
    assert(texts.deep_view() =~= Seq::empty());
    while i < present.len()
        invariant
            i <= present@.len(),
            texts.deep_view() == undocumented(present@.take(i as int)),
        decreases present@.len() - i,
    {
        let ghost before = texts.deep_view();
        proof {
            assert(present@.take(i + 1).drop_last() =~= present@.take(i as int));
            assert(present@.take(i + 1).last() == present@[i as int]);
        }
        if p::service_of(present[i]).is_none() {
            texts.push(ids::uuid_text(present[i]));
            assert(texts.deep_view() =~= before.push(ids::uuid_chars(present@[i as int])));
        }
        i += 1;
    }
    assert(present@.take(present@.len() as int) =~= present@);
    texts
}

/// Whether these are what a camera gave: the characteristics it exposes, those
/// it takes writes on, and for each documented one it exposes what a read of it
/// came to.
pub open spec fn examined<G: Gatt>(
    gatt: &G,
    present: Vec<Uuid>,
    writable: Vec<Uuid>,
    replies: Seq<Option<Result<Vec<u8>>>>,
) -> bool {
    &&& call_ensures(G::available, (gatt,), present)
    &&& call_ensures(G::writable, (gatt,), writable)
    &&& replies.len() == p::profile().len()
    &&& forall|i: int|
        0 <= i < replies.len() ==> match #[trigger] replies[i] {
            Some(reply) => present@.contains(p::profile()[i].uuid) && call_ensures(
                G::read,
                (gatt, p::profile()[i].uuid),
                reply,
            ),
            None => !present@.contains(p::profile()[i].uuid),
        }
}

/// What the replies say, one by one.
pub open spec fn replies_seen(replies: Seq<Option<Result<Vec<u8>>>>) -> Seq<
    Option<ResultView<Seq<u8>>>,
> {
    replies.map_values(|reply: Option<Result<Vec<u8>>>| reply_seen(reply))
}

/// Examine a camera: read every documented characteristic that it exposes, and
/// report.
pub fn examine<G: Gatt>(gatt: &G) -> (report: Json)
    ensures
        exists|present: Vec<Uuid>, writable: Vec<Uuid>, replies: Seq<Option<Result<Vec<u8>>>>|
            #![trigger examined(gatt, present, writable, replies)]
            examined(gatt, present, writable, replies) && report@ == report_view(
                present@,
                writable@,
                replies_seen(replies),
            ),
{
    let present = gatt.available();
    let writable = gatt.writable();
    let table = p::known_characteristics();
    let ghost mut replies: Seq<Option<Result<Vec<u8>>>> = Seq::empty();
    let mut rows: Vec<Json> = Vec::new();
    let mut i: usize = 0;
    while i < table.len()
        invariant
            i <= table@.len(),
            table.deep_view() == p::profile(),
            replies.len() == i,
            rows@.len() == i,
            forall|j: int|
                0 <= j < i ==> match #[trigger] replies[j] {
                    Some(reply) => present@.contains(p::profile()[j].uuid) && call_ensures(
                        G::read,
                        (gatt, p::profile()[j].uuid),
                        reply,
                    ),
                    None => !present@.contains(p::profile()[j].uuid),
                },
            forall|j: int|
                0 <= j < i ==> (#[trigger] rows@[j])@ == row_view(
                    p::profile()[j],
                    present@.contains(p::profile()[j].uuid),
                    writable@.contains(p::profile()[j].uuid),
                    reply_seen(replies[j]),
                ),
        decreases table@.len() - i,
    {
        let entry = &table[i];
        assert(p::profile()[i as int] == entry@);
        let exposed = holds(&present, entry.uuid);
        let reply = if exposed {
            Some(gatt.read(entry.uuid))
        } else {
            None
        };
        proof {
            replies = replies.push(reply);
        }
        rows.push(row_json(entry, exposed, holds(&writable, entry.uuid), reply));
        i += 1;
    }
    proof {
        assert(examined(gatt, present, writable, replies));
        assert(rows.deep_view() =~= rows_view(present@, writable@, replies_seen(replies)));
    }
    let unknown = undocumented_texts(&present);
    let members: Vec<(String, Json)> = vec![
        json::named("documented", json::of_items(rows)),
        json::named("undocumented_present", json::of_texts(&unknown)),
    ];
    assert(members.deep_view() =~= report_view(
        present@,
        writable@,
        replies_seen(replies),
    )->Object_0);
    json::of_members(members)
}

/// What a row is shown as.
pub open spec fn row_line(row: JsonView) -> Seq<char> {
    let mark = if json::flag_in(json::member(row, "exposed"@)) == Some(true) {
        "yes"@
    } else {
        "NO "@
    };
    let name = match json::text_in(json::member(row, "name"@)) {
        Some(name) => name,
        None => seq![],
    };
    let line = mark + "  "@ + text::right_padded(name, 24);
    match gatt::row_hex(row) {
        Some(hex) => line + "  "@ + hex,
        None => line,
    }
}

/// The lines about the characteristics that are not documented.
pub open spec fn unknown_lines(unknown: Seq<JsonView>) -> Seq<Seq<char>> {
    if unknown.len() == 0 {
        seq![]
    } else {
        seq![
            "\n"@ + text::decimal(unknown.len())
                + " characteristic(s) present that gr3sync does not know about:"@,
        ] + unknown.map_values(|uuid: JsonView| unknown_line(uuid))
    }
}

/// The line that names a characteristic that is not documented.
pub open spec fn unknown_line(uuid: JsonView) -> Seq<char> {
    match json::text_in(Some(uuid)) {
        Some(uuid) => "  "@ + uuid,
        None => "  "@,
    }
}

/// The items of a member of the report; none where it has no such list.
pub open spec fn items_of(report: JsonView, key: Seq<char>) -> Seq<JsonView> {
    match json::items_in(json::member(report, key)) {
        Some(items) => items,
        None => seq![],
    }
}

/// What a person is shown of a report.
pub open spec fn report_text(report: JsonView) -> Seq<Seq<char>> {
    items_of(report, "documented"@).map_values(|row: JsonView| row_line(row)) + unknown_lines(
        items_of(report, "undocumented_present"@),
    )
}

fn line_of(row: &Json) -> (line: String)
    ensures
        line@ == row_line(row@),
{
    let exposed = match row.get("exposed") {
        Some(exposed) => match exposed.as_bool() {
            Some(yes) => yes,
            None => false,
        },
        None => false,
    };
    let name = match row.get("name") {
        Some(name) => match name.as_str() {
            Some(name) => name.to_owned(),
            None => nothing(),
        },
        None => nothing(),
    };
    let mut line = if exposed {
        "yes".to_owned()
    } else {
        "NO ".to_owned()
    };
    line.append("  ");
    line.append(text::pad_right(name.as_str(), 24).as_str());
    let hex = match row.get("value") {
        Some(value) => match value.get("hex") {
            Some(hex) => hex.as_str(),
            None => None,
        },
        None => None,
    };
    match hex {
        Some(hex) => {
            line.append("  ");
            line.append(hex);
        },
        None => {},
    }
    line
}

fn nothing() -> (text: String)
    ensures
        text@ == Seq::<char>::empty(),
{
    let text = String::new();
    assert(text@ =~= Seq::<char>::empty());
    text
}

fn unknown_texts(unknown: &Vec<Json>) -> (lines: Vec<String>)
    ensures
        lines.deep_view() == unknown_lines(unknown.deep_view()),
{
    let mut lines: Vec<String> = Vec::new();
    let count: usize = unknown.len();
    if count == 0 {
        assert(lines.deep_view() =~= unknown_lines(unknown.deep_view()));
        return lines;
    }
    let mut heading = "\n".to_owned();
    heading.append(text::decimal_text(count as u64).as_str());
    heading.append(" characteristic(s) present that gr3sync does not know about:");
    lines.push(heading);
    let mut i: usize = 0;
    while i < count
        invariant
            i <= count,
            count == unknown@.len(),
            lines@.len() == 1 + i,
            lines@[0] == heading,
            forall|j: int|
                1 <= j <= i ==> (#[trigger] lines@[j])@ == unknown_line(unknown@[j - 1]@),
        decreases count - i,
    {
        let mut line = "  ".to_owned();
        if let Some(uuid) = unknown[i].as_str() {
            line.append(uuid);
        }
        lines.push(line);
        i += 1;
    }
    assert(lines.deep_view() =~= unknown_lines(unknown.deep_view()));
    lines
}

fn row_texts(rows: &Vec<Json>) -> (lines: Vec<String>)
    ensures
        lines.deep_view() == rows.deep_view().map_values(|row: JsonView| row_line(row)),
{
    let mut lines: Vec<String> = Vec::new();
    let mut i: usize = 0;
    while i < rows.len()
        invariant
            i <= rows@.len(),
            lines@.len() == i,
            forall|j: int| 0 <= j < i ==> (#[trigger] lines@[j])@ == row_line(rows@[j]@),
        decreases rows@.len() - i,
    {
        lines.push(line_of(&rows[i]));
        i += 1;
    }
    assert(lines.deep_view() =~= rows.deep_view().map_values(|row: JsonView| row_line(row)));
    lines
}

/// Write a report down for a person.
pub fn report_lines(report: &Json) -> (lines: Vec<String>)
    ensures
        lines.deep_view() == report_text(report@),
{
    let rows = match report.get("documented") {
        Some(rows) => rows.as_array(),
        None => None,
    };
    let unknown = match report.get("undocumented_present") {
        Some(unknown) => unknown.as_array(),
        None => None,
    };
    let mut lines = match rows {
        Some(rows) => row_texts(rows),
        None => Vec::new(),
    };
    let mut others = match unknown {
        Some(unknown) => unknown_texts(unknown),
        None => Vec::new(),
    };
    let ghost above = lines@;
    let ghost below = others@;
    lines.append(&mut others);
    proof {
        let shown = items_of(report@, "documented"@).map_values(|row: JsonView| row_line(row));
        assert(above.map_values(|line: String| line@) =~= shown);
        assert(below.map_values(|line: String| line@) =~= unknown_lines(
            items_of(report@, "undocumented_present"@),
        ));
        assert(lines.deep_view() =~= report_text(report@));
    }
    lines
}

/// A table rebuilt from the report of a camera holds what the camera answered:
/// of each documented characteristic that was read the bytes, its name, its
/// service, and whether it can be written; and none that is not exposed.
pub proof fn lemma_a_report_replays_the_camera(
    present: Seq<Uuid>,
    writable: Seq<Uuid>,
    replies: Seq<Option<ResultView<Seq<u8>>>>,
    i: int,
)
    requires
        replies.len() == p::profile().len(),
        0 <= i < p::profile().len(),
    ensures
        ({
            let entry = p::profile()[i];
            let table = gatt::reported(rows_view(present, writable, replies));
            if !present.contains(entry.uuid) {
                gatt::value_in(table, entry.uuid) is None
            } else {
                let state = table[ids::uuid_chars(entry.uuid)];
                &&& table.contains_key(ids::uuid_chars(entry.uuid))
                &&& replies[i] matches Some(Ok(raw)) ==> gatt::value_in(table, entry.uuid) == Some(raw)
                &&& gatt::readable_in(table, entry.uuid)
                &&& state.name == Some(entry.name)
                &&& state.service == gatt::service_text(entry.uuid)
                &&& state.writable == writable.contains(entry.uuid)
            }
        }),
{
    let rows = rows_view(present, writable, replies);
    assert(rows.take(rows.len() as int) =~= rows);
    lemma_reported(present, writable, replies, rows.len() as int);
    assert(rows[i] == row_view(
        p::profile()[i],
        present.contains(p::profile()[i].uuid),
        writable.contains(p::profile()[i].uuid),
        replies[i],
    ));
    lemma_row_state(
        p::profile()[i],
        present.contains(p::profile()[i].uuid),
        writable.contains(p::profile()[i].uuid),
        replies[i],
    );
}

proof fn lemma_reported(
    present: Seq<Uuid>,
    writable: Seq<Uuid>,
    replies: Seq<Option<ResultView<Seq<u8>>>>,
    n: int,
)
    requires
        0 <= n <= p::profile().len(),
    ensures
        ({
            let rows = rows_view(present, writable, replies);
            let table = gatt::reported(rows.take(n));
            &&& forall|i: int|
                #![trigger rows[i]]
                0 <= i < n ==> {
                    let key = ids::uuid_chars(p::profile()[i].uuid);
                    &&& table.contains_key(key) == present.contains(p::profile()[i].uuid)
                    &&& present.contains(p::profile()[i].uuid) ==> gatt::row_state(rows[i]) == Some(
                        (key, table[key]),
                    )
                }
            &&& forall|key: Seq<char>| #[trigger]
                table.contains_key(key) ==> exists|i: int|
                    #![trigger p::profile()[i]]
                    0 <= i < n && key == ids::uuid_chars(p::profile()[i].uuid)
        }),
    decreases n,
{
    let rows = rows_view(present, writable, replies);
    if n > 0 {
        let entry = p::profile()[n - 1];
        lemma_reported(present, writable, replies, n - 1);
        assert(rows.take(n).drop_last() =~= rows.take(n - 1));
        assert(rows.take(n).last() == rows[n - 1]);
        lemma_row_state(
            entry,
            present.contains(entry.uuid),
            writable.contains(entry.uuid),
            replies[n - 1],
        );
        let before = gatt::reported(rows.take(n - 1));
        let key = ids::uuid_chars(entry.uuid);
        assert(!before.contains_key(key)) by {
            if before.contains_key(key) {
                let i = choose|i: int|
                    #![trigger p::profile()[i]]
                    0 <= i < n - 1 && key == ids::uuid_chars(p::profile()[i].uuid);
                ids::lemma_uuid_text_is_injective(p::profile()[i].uuid, entry.uuid);
                p::lemma_uuids_are_unique(i, n - 1);
            }
        }
        assert forall|i: int| #![trigger rows[i]] 0 <= i < n - 1 implies ids::uuid_chars(
            p::profile()[i].uuid,
        ) != key by {
            if ids::uuid_chars(p::profile()[i].uuid) == key {
                ids::lemma_uuid_text_is_injective(p::profile()[i].uuid, entry.uuid);
                p::lemma_uuids_are_unique(i, n - 1);
            }
        }
    }
}

/// What a row says once it is read back.
proof fn lemma_row_state(
    entry: p::CharacteristicView,
    exposed: bool,
    writable: bool,
    reply: Option<ResultView<Seq<u8>>>,
)
    ensures
        ({
            let row = gatt::row_state(row_view(entry, exposed, writable, reply));
            if !exposed {
                row is None
            } else {
                let state = row.unwrap().1;
                &&& row is Some
                &&& row.unwrap().0 == ids::uuid_chars(entry.uuid)
                &&& gatt::is_readable(state.value)
                &&& reply matches Some(Ok(raw)) ==> state.bytes() == raw
                &&& state.writable == writable
                &&& state.name == Some(entry.name)
                &&& state.service == gatt::service_text(entry.uuid)
            }
        }),
{
    lemma_row_members(entry, exposed, writable, reply);
    ids::lemma_uuid_round_trips(entry.uuid);
    let value = value_view(reply);
    reveal_with_fuel(json::member_from, 3);
    match reply {
        Some(Ok(raw)) => {
            hexadecimal::lemma_hex_round_trips(raw);
            let members = value->Object_0;
            assert(members[0] == ("hex"@, JsonView::Text(hexadecimal::hex_of(raw))));
        },
        Some(Err(error)) => {
            hexadecimal::lemma_hex_round_trips(Seq::empty());
            reveal_strlit("hex");
            reveal_strlit("error");
            assert("hex"@.len() != "error"@.len());
            assert(value->Object_0.len() == 1);
        },
        None => {
            hexadecimal::lemma_hex_round_trips(Seq::empty());
        },
    }
}

proof fn lemma_row_members(
    entry: p::CharacteristicView,
    exposed: bool,
    writable: bool,
    reply: Option<ResultView<Seq<u8>>>,
)
    ensures
        ({
            let row = row_view(entry, exposed, writable, reply);
            &&& json::member(row, "name"@) == Some(JsonView::Text(entry.name))
            &&& json::member(row, "uuid"@) == Some(JsonView::Text(ids::uuid_chars(entry.uuid)))
            &&& json::member(row, "service"@) == Some(
                json::optional_text_view(gatt::service_text(entry.uuid)),
            )
            &&& json::member(row, "exposed"@) == Some(JsonView::Bool(exposed))
            &&& json::member(row, "writable"@) == Some(JsonView::Bool(writable))
            &&& json::member(row, "value"@) == Some(value_view(reply))
        }),
{
    reveal_strlit("name");
    reveal_strlit("uuid");
    reveal_strlit("service");
    reveal_strlit("exposed");
    reveal_strlit("writable");
    reveal_strlit("value");
    reveal_with_fuel(json::member_from, 7);
    assert("name"@[0] == 'n' && "uuid"@[0] == 'u' && "service"@[0] == 's' && "exposed"@[0] == 'e'
        && "writable"@[0] == 'w' && "value"@[0] == 'v');
}

/// What is there and not documented is named, in order, and nothing else: what two
/// lists have is what the one has and then what the other has, and one characteristic
/// is named exactly where no documented entry has its UUID.
pub proof fn lemma_what_is_undocumented(first: Seq<Uuid>, second: Seq<Uuid>, uuid: Uuid)
    ensures
        undocumented(first + second) == undocumented(first) + undocumented(second),
        (forall|i: int| 0 <= i < p::profile().len() ==> (#[trigger] p::profile()[i]).uuid != uuid)
            ==> undocumented(seq![uuid]) == seq![ids::uuid_chars(uuid)],
        (exists|i: int| 0 <= i < p::profile().len() && (#[trigger] p::profile()[i]).uuid == uuid)
            ==> undocumented(seq![uuid]).len() == 0,
    decreases second.len(),
{
    if second.len() > 0 {
        assert((first + second).drop_last() =~= first + second.drop_last());
        lemma_what_is_undocumented(first, second.drop_last(), uuid);
        assert(undocumented(first + second) =~= undocumented(first) + undocumented(second));
    } else {
        assert(first + second =~= first);
    }
    assert(seq![uuid].drop_last() =~= Seq::empty());
    assert(undocumented(Seq::empty()) =~= Seq::empty());
    p::lemma_only_documented_entries_are_found(Seq::empty(), uuid);
    assert(seq![uuid].last() == uuid);
}

/// What a person is shown of a characteristic says whether the camera exposes it, under
/// its name, and what it read as where it was read.
pub proof fn lemma_what_doctor_shows(
    entry: p::CharacteristicView,
    exposed: bool,
    writable: bool,
    reply: Option<ResultView<Seq<u8>>>,
)
    ensures
        ({
            let start = (if exposed {
                "yes"@
            } else {
                "NO "@
            }) + "  "@ + text::right_padded(entry.name, 24);
            row_line(row_view(entry, exposed, writable, reply)) == match reply {
                Some(Ok(raw)) => start + "  "@ + hexadecimal::hex_of(raw),
                _ => start,
            }
        }),
{
    lemma_row_members(entry, exposed, writable, reply);
    reveal_strlit("hex");
    reveal_strlit("error");
    reveal_strlit("text");
    assert("hex"@.len() == 3 && "error"@.len() == 5);
    reveal_with_fuel(json::member_from, 3);
}

/// A report is shown whole: a line for every documented characteristic, in the table's
/// order, and then, where there are any, a heading and a line for each that is not
/// documented.
pub proof fn lemma_a_report_is_shown_whole(
    present: Seq<Uuid>,
    writable: Seq<Uuid>,
    replies: Seq<Option<ResultView<Seq<u8>>>>,
    i: int,
    j: int,
)
    ensures
        ({
            let shown = report_text(report_view(present, writable, replies));
            let known = p::profile().len();
            let others = undocumented(present);
            &&& shown.len() == known + (if others.len() == 0 {
                0
            } else {
                1 + others.len()
            })
            &&& 0 <= i < known ==> shown[i] == row_line(
                row_view(
                    p::profile()[i],
                    present.contains(p::profile()[i].uuid),
                    writable.contains(p::profile()[i].uuid),
                    replies[i],
                ),
            )
            &&& 0 <= j < others.len() ==> shown[known + 1 + j] == "  "@ + others[j]
        }),
{
    let report = report_view(present, writable, replies);
    reveal_strlit("documented");
    reveal_strlit("undocumented_present");
    assert("documented"@.len() == 10 && "undocumented_present"@.len() == 20);
    reveal_with_fuel(json::member_from, 3);
    let others = undocumented(present);
    let listed = others.map_values(|text: Seq<char>| JsonView::Text(text));
    assert(items_of(report, "documented"@) == rows_view(present, writable, replies));
    assert(items_of(report, "undocumented_present"@) == listed);
    if 0 <= j < others.len() {
        assert(listed[j] == JsonView::Text(others[j]));
        assert(unknown_lines(listed)[1 + j] == unknown_line(listed[j]));
    }
}

} // verus!
