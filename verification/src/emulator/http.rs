//! The camera's Wi-Fi HTTP API, emulated.
//!
//! What a request is answered, and what it does to the card. Served over real
//! sockets, it lets a client be exercised against streaming and partial reads.
//!
//! Shapes follow the firmware endpoint list recovered in
//! <https://notes.secretsauce.net/notes/2022/06/16_ricoh-gr-iiix-80211-reverse-engineering.html>
//! and the `errCode`/`dirs` envelope that clyang/GRsync consumes in practice.

use crate::camera;
use crate::camera::PhotoView;
use crate::text;
use crate::textmap;
use crate::textmap::TextMap;
use vstd::prelude::*;

verus! {

/// The synthetic SD card, plus the switches a test needs to make things fail.
#[derive(Debug)]
pub struct Card {
    pub model: String,
    pub battery: i64,
    /// directory -> filename -> body
    pub files: TextMap<TextMap<Vec<u8>>>,
    /// Filenames the server should cut short mid-body, to exercise the client's
    /// handling of an access point that drops during a transfer.
    pub broken: Vec<String>,
    pub wlan_finished: bool,
    pub device_finished: bool,
    pub requests: Vec<String>,
}

/// The files of a card: directory, filename, body.
pub type Files = Map<Seq<char>, Map<Seq<char>, Seq<u8>>>;

/// A card, mathematically.
#[verifier::ext_equal]
pub struct CardView {
    pub model: Seq<char>,
    pub battery: i64,
    pub files: Files,
    pub broken: Seq<Seq<char>>,
    pub wlan_finished: bool,
    pub device_finished: bool,
    pub requests: Seq<Seq<char>>,
}

/// The files of one directory.
pub open spec fn bodies(files: TextMap<Vec<u8>>) -> Map<Seq<char>, Seq<u8>> {
    files@.map_values(|body: Vec<u8>| body@)
}

/// The files of every directory.
pub open spec fn files_seen(files: TextMap<TextMap<Vec<u8>>>) -> Files {
    files@.map_values(|files: TextMap<Vec<u8>>| bodies(files))
}

impl View for Card {
    type V = CardView;

    open spec fn view(&self) -> CardView {
        CardView {
            model: self.model@,
            battery: self.battery,
            files: files_seen(self.files),
            broken: self.broken.deep_view(),
            wlan_finished: self.wlan_finished,
            device_finished: self.device_finished,
            requests: self.requests.deep_view(),
        }
    }
}

/// The body of a file, where the card has it.
pub open spec fn body_in(files: Files, directory: Seq<char>, filename: Seq<char>) -> Option<
    Seq<u8>,
> {
    if files.contains_key(directory) && files[directory].contains_key(filename) {
        Some(files[directory][filename])
    } else {
        None
    }
}

/// The files of a card with one more.
pub open spec fn added(
    files: Files,
    directory: Seq<char>,
    filename: Seq<char>,
    body: Seq<u8>,
) -> Files {
    let there = if files.contains_key(directory) {
        files[directory]
    } else {
        Map::empty()
    };
    files.insert(directory, there.insert(filename, body))
}

/// The name that shot number `index` has, but for its extension.
pub open spec fn stem(index: nat) -> Seq<char> {
    "R"@ + text::left_padded(text::decimal(index), '0', 7)
}

/// A made-up body: a tag, and then one byte over and over.
pub open spec fn body_of(tag: Seq<char>, index: nat, repeat: nat) -> Seq<u8> {
    vstd::utf8::encode_utf8(tag) + Seq::new(repeat, |i: int| (index % 256) as u8)
}

/// The files of so many RAW+JPEG pairs.
pub open spec fn pair_files(pairs: nat) -> Files
    decreases pairs,
{
    if pairs == 0 {
        Map::empty()
    } else {
        added(
            added(
                pair_files((pairs - 1) as nat),
                "100RICOH"@,
                stem(pairs) + ".JPG"@,
                body_of("jpeg"@, pairs, 512),
            ),
            "100RICOH"@,
            stem(pairs) + ".DNG"@,
            body_of("dng-"@, pairs, 2048),
        )
    }
}

/// How many files the directories hold, from number `from` on.
pub open spec fn count_from(files: Files, directories: Seq<Seq<char>>, from: nat) -> nat
    decreases directories.len() - from,
{
    if from >= directories.len() {
        0
    } else {
        files[directories[from as int]].dom().len() + count_from(files, directories, from + 1)
    }
}

/// How many files there are.
pub open spec fn count_of(files: Files) -> nat {
    count_from(files, textmap::sorted(files.dom()), 0)
}

/// A camera with nothing on its card.
pub open spec fn blank() -> CardView {
    CardView {
        model: "RICOH GR III"@,
        battery: 88,
        files: Map::empty(),
        broken: seq![],
        wlan_finished: false,
        device_finished: false,
        requests: seq![],
    }
}

impl Default for Card {
    fn default() -> (card: Self)
        ensures
            card@ == blank(),
    {
        let card = Card {
            model: "RICOH GR III".to_owned(),
            battery: 88,
            files: TextMap::new(),
            broken: Vec::new(),
            wlan_finished: false,
            device_finished: false,
            requests: Vec::new(),
        };
        assert(card@.files =~= Map::<Seq<char>, Map<Seq<char>, Seq<u8>>>::empty());
        assert(card@.broken =~= Seq::empty());
        assert(card@.requests =~= Seq::empty());
        card
    }
}

impl Card {
    pub fn new() -> (card: Self)
        ensures
            card@ == blank(),
    {
        Card::default()
    }

    pub fn add(&mut self, directory: &str, filename: &str, body: Vec<u8>)
        ensures
            final(self)@ == (CardView {
                files: added(old(self)@.files, directory@, filename@, body@),
                ..old(self)@
            }),
    {
        let ghost before = self.files@;
        let mut files = match self.files.remove(directory) {
            Some(files) => files,
            None => TextMap::new(),
        };
        let ghost there = files@;
        files.insert(filename.to_owned(), body);
        let ghost after = files;
        self.files.insert(directory.to_owned(), files);
        proof {
            assert(self.files@ =~= before.insert(directory@, after));
            assert(bodies(after) =~= there.map_values(|body: Vec<u8>| body@).insert(
                filename@,
                body@,
            ));
            if !old(self)@.files.contains_key(directory@) {
                assert(there.map_values(|body: Vec<u8>| body@) =~= Map::empty());
            }
            assert(files_seen(self.files) =~= added(
                old(self)@.files,
                directory@,
                filename@,
                body@,
            ));
        }
    }

    /// `pairs` RAW+JPEG pairs in `100RICOH`, with plausible sizes.
    pub fn with_pairs(pairs: usize) -> (card: Self)
        ensures
            card@ == (CardView { files: pair_files(pairs as nat), ..blank() }),
    {
        let mut card = Card::new();
        let mut index: usize = 0;
        while index < pairs
            invariant
                index <= pairs,
                card@ == (CardView { files: pair_files(index as nat), ..blank() }),
            decreases pairs - index,
        {
            index += 1;
            let mut stem = "R".to_owned();
            stem.append(
                text::pad_left(text::decimal_text(index as u64).as_str(), '0', 7).as_str(),
            );
            let mut jpeg = stem.clone();
            jpeg.append(".JPG");
            card.add("100RICOH", jpeg.as_str(), synthetic_body("jpeg", index, 512));
            let mut raw = stem;
            raw.append(".DNG");
            card.add("100RICOH", raw.as_str(), synthetic_body("dng-", index, 2048));
        }
        card
    }

    pub fn count(&self) -> (count: usize)
        requires
            count_of(self@.files) <= usize::MAX,
        ensures
            count == count_of(self@.files),
    {
        let ghost names = textmap::sorted(self@.files.dom());
        assert(self@.files.dom() =~= self.files@.dom());
        let directories: usize = self.files.len();
        let mut count: usize = 0;
        let mut i: usize = 0;
        while i < directories
            invariant
                i <= directories,
                directories == self.files@.dom().len(),
                directories == names.len(),
                names == textmap::sorted(self.files@.dom()),
                count + count_from(self@.files, names, i as nat) == count_of(self@.files),
                names == textmap::sorted(self@.files.dom()),
                count_of(self@.files) <= usize::MAX,
            decreases directories - i,
        {
            let (directory, files) = self.files.at(i);
            let more: usize = files.len();
            proof {
                assert(self@.files[directory@] == bodies(*files));
                assert(bodies(*files).dom() =~= files@.dom());
            }
            count = count + more;
            i += 1;
        }
        count
    }
}

fn synthetic_body(tag: &str, index: usize, repeat: usize) -> (body: Vec<u8>)
    ensures
        body@ == body_of(tag@, index as nat, repeat as nat),
{
    let mut body: Vec<u8> = vstd::slice::slice_to_vec(tag.as_bytes());
    let ghost start = body@;
    let byte: u8 = (index % 256) as u8;
    let mut i: usize = 0;
    assert(body@ =~= start + Seq::new(0, |i: int| (index as nat % 256) as u8));
    while i < repeat
        invariant
            i <= repeat,
            byte == (index as nat % 256) as u8,
            body@ == start + Seq::new(i as nat, |i: int| (index as nat % 256) as u8),
        decreases repeat - i,
    {
        body.push(byte);
        i += 1;
        assert(body@ =~= start + Seq::new(i as nat, |i: int| (index as nat % 256) as u8));
    }
    body
}

/// A response: what it announces need not be what it sends.
#[derive(Debug)]
pub struct Response {
    pub status: u16,
    pub content_type: &'static str,
    pub announced: u128,
    pub body: Vec<u8>,
}

/// A response, mathematically.
#[verifier::ext_equal]
pub struct ResponseView {
    pub status: u16,
    pub content_type: Seq<char>,
    pub announced: int,
    pub body: Seq<u8>,
}

impl View for Response {
    type V = ResponseView;

    open spec fn view(&self) -> ResponseView {
        ResponseView {
            status: self.status,
            content_type: self.content_type@,
            announced: self.announced as int,
            body: self.body@,
        }
    }
}

/// The words that go with a status.
pub open spec fn reason_phrase(status: u16) -> Seq<char> {
    if status == 200 {
        "OK"@
    } else if status == 404 {
        "Not Found"@
    } else if status == 405 {
        "Method Not Allowed"@
    } else {
        "Error"@
    }
}

/// What stands before a response's body.
pub open spec fn head_text(response: ResponseView) -> Seq<char> {
    "HTTP/1.1 "@ + text::decimal(response.status as nat) + " "@ + reason_phrase(response.status)
        + "\r\nContent-Type: "@ + response.content_type + "\r\nContent-Length: "@ + text::decimal(
        response.announced as nat,
    ) + "\r\nConnection: close\r\n\r\n"@
}

impl Response {
    fn reason(&self) -> (reason: &'static str)
        ensures
            reason@ == reason_phrase(self.status),
    {
        if self.status == 200 {
            "OK"
        } else if self.status == 404 {
            "Not Found"
        } else if self.status == 405 {
            "Method Not Allowed"
        } else {
            "Error"
        }
    }

    /// The bytes that go over the wire.
    pub fn to_bytes(&self) -> (bytes: Vec<u8>)
        ensures
            bytes@ == vstd::utf8::encode_utf8(head_text(self@)) + self@.body,
    {
        let mut head = "HTTP/1.1 ".to_owned();
        head.append(text::decimal_text(self.status as u64).as_str());
        head.append(" ");
        head.append(self.reason());
        head.append("\r\nContent-Type: ");
        head.append(self.content_type);
        head.append("\r\nContent-Length: ");
        head.append(text::wide_decimal_text(self.announced).as_str());
        head.append("\r\nConnection: close\r\n\r\n");
        let mut bytes: Vec<u8> = vstd::slice::slice_to_vec(head.as_str().as_bytes());
        let ghost front = bytes@;
        let mut i: usize = 0;
        assert(front + self.body@.take(0) =~= front);
        while i < self.body.len()
            invariant
                i <= self.body@.len(),
                bytes@ == front + self.body@.take(i as int),
            decreases self.body@.len() - i,
        {
            bytes.push(self.body[i]);
            i += 1;
            assert(bytes@ =~= front + self.body@.take(i as int));
        }
        assert(self.body@.take(self.body@.len() as int) =~= self.body@);
        bytes
    }
}

/// A response that sends what it announces.
pub open spec fn plain(status: u16, content_type: Seq<char>, body: Seq<u8>) -> ResponseView {
    ResponseView { status, content_type, announced: body.len() as int, body }
}

pub open spec fn json_response(status: u16, body: Seq<char>) -> ResponseView {
    plain(status, "application/json"@, vstd::utf8::encode_utf8(body))
}

pub open spec fn text_response(status: u16, body: Seq<char>) -> ResponseView {
    plain(status, "text/plain"@, vstd::utf8::encode_utf8(body))
}

fn respond(status: u16, content_type: &'static str, body: &str) -> (response: Response)
    ensures
        response@ == plain(status, content_type@, vstd::utf8::encode_utf8(body@)),
{
    let bytes: Vec<u8> = vstd::slice::slice_to_vec(body.as_bytes());
    Response { status, content_type, announced: bytes.len() as u128, body: bytes }
}

/// What the camera says of itself.
pub open spec fn props_body(card: CardView) -> Seq<char> {
    "{\"errCode\":200,\"errMsg\":\"OK\",\"model\":\""@ + card.model + "\",\"battery\":"@
        + text::signed_decimal(card.battery as int)
        + ",\"firmwareVersion\":\"1.90\",\"serialNo\":\"01234567\"}"@
}

/// A name in quotes.
pub open spec fn in_quotes(name: Seq<char>) -> Seq<char> {
    "\""@ + name + "\""@
}

/// One directory of the listing: its name, and those of its files in order.
pub open spec fn directory_body(directory: Seq<char>, files: Map<Seq<char>, Seq<u8>>) -> Seq<char> {
    "{\"name\":\""@ + directory + "\",\"files\":["@ + text::joined(
        textmap::sorted(files.dom()).map_values(|name: Seq<char>| in_quotes(name)),
        ","@,
    ) + "]}"@
}

/// The listing of the card: its directories in order.
pub open spec fn photos_body(card: CardView) -> Seq<char> {
    "{\"errCode\":200,\"errMsg\":\"OK\",\"dirs\":["@ + text::joined(
        textmap::sorted(card.files.dom()).map_values(
            |directory: Seq<char>| directory_body(directory, card.files[directory]),
        ),
        ","@,
    ) + "]}"@
}

/// The parts of a path between its slashes, those at its ends left out.
pub open spec fn segments(path: Seq<char>) -> Seq<Seq<char>> {
    text::pieces(text::without_leading_slashes(text::without_trailing_slashes(path)), '/')
}

/// What a request for a file's description is answered.
///
/// HTTP 404 *and* an errCode: the harder of the two shapes the real camera might
/// use, so the client has to handle both.
pub open spec fn info_response(card: CardView, directory: Seq<char>, filename: Seq<char>) -> ResponseView {
    match body_in(card.files, directory, filename) {
        Some(body) => json_response(
            200,
            "{\"errCode\":200,\"errMsg\":\"OK\",\"n\":"@ + text::decimal(body.len()) + "}"@,
        ),
        None => json_response(404, "{\"errCode\":404,\"errMsg\":\"not found\"}"@),
    }
}

/// What a request for a file is answered. A broken one announces more bytes than
/// it sends, and then hangs up: this is what a transfer cut short by the access
/// point dropping looks like.
pub open spec fn photo_response(card: CardView, directory: Seq<char>, filename: Seq<char>) -> ResponseView {
    match body_in(card.files, directory, filename) {
        Some(body) => if card.broken.contains(filename) {
            ResponseView {
                status: 200,
                content_type: "image/jpeg"@,
                announced: body.len() as int + 4096,
                body: body.take(body.len() as int / 2),
            }
        } else {
            plain(200, "image/jpeg"@, body)
        },
        None => text_response(404, "not found"@),
    }
}

/// What a GET is answered.
pub open spec fn get_response(card: CardView, path: Seq<char>) -> ResponseView {
    let parts = segments(path);
    if path == "/v1/ping"@ {
        json_response(200, "{\"errCode\":200,\"errMsg\":\"OK\"}"@)
    } else if path == "/v1/props"@ {
        json_response(200, props_body(card))
    } else if path == "/v1/photos"@ {
        json_response(200, photos_body(card))
    } else if parts.len() == 5 && parts[0] == "v1"@ && parts[1] == "photos"@ && parts[4]
        == "info"@ {
        info_response(card, parts[2], parts[3])
    } else if parts.len() == 4 && parts[0] == "v1"@ && parts[1] == "photos"@ {
        photo_response(card, parts[2], parts[3])
    } else {
        text_response(404, "not found"@)
    }
}

/// What a POST is answered, and what it does to the card.
pub open spec fn post_response(card: CardView, path: Seq<char>) -> (CardView, ResponseView) {
    if path == "/v1/device/wlan/finish"@ {
        (
            CardView { wlan_finished: true, ..card },
            json_response(200, "{\"errCode\":200,\"errMsg\":\"OK\"}"@),
        )
    } else if path == "/v1/device/finish"@ {
        (
            CardView { device_finished: true, ..card },
            json_response(200, "{\"errCode\":200,\"errMsg\":\"OK\"}"@),
        )
    } else {
        (card, text_response(404, "not found"@))
    }
}

/// What a request is answered, and what it does to the card: it is noted, and
/// then served.
pub open spec fn served(card: CardView, method: Seq<char>, path: Seq<char>) -> (
    CardView,
    ResponseView,
) {
    let noted = CardView { requests: card.requests.push(method + " "@ + path), ..card };
    if method == "GET"@ {
        (noted, get_response(noted, path))
    } else if method == "POST"@ {
        post_response(noted, path)
    } else {
        (noted, text_response(405, "method not allowed"@))
    }
}

impl Card {
    fn body(&self, directory: &str, filename: &str) -> (body: Option<&Vec<u8>>)
        ensures
            match body {
                Some(body) => body_in(self@.files, directory@, filename@) == Some(body@),
                None => body_in(self@.files, directory@, filename@) is None,
            },
    {
        match self.files.get(directory) {
            Some(files) => files.get(filename),
            None => None,
        }
    }

    fn is_broken(&self, filename: &str) -> (yes: bool)
        ensures
            yes == self@.broken.contains(filename@),
    {
        let mut i: usize = 0;
        while i < self.broken.len()
            invariant
                i <= self.broken@.len(),
                forall|j: int| 0 <= j < i ==> (#[trigger] self.broken@[j])@ != filename@,
            decreases self.broken@.len() - i,
        {
            if text::same(self.broken[i].as_str(), filename) {
                assert(self@.broken[i as int] == filename@);
                return true;
            }
            i += 1;
        }
        proof {
            if self@.broken.contains(filename@) {
                let j = choose|j: int| 0 <= j < self@.broken.len() && self@.broken[j] == filename@;
                assert(self.broken@[j]@ == filename@);
            }
        }
        false
    }

    fn props_text(&self) -> (body: String)
        ensures
            body@ == props_body(self@),
    {
        let mut body = "{\"errCode\":200,\"errMsg\":\"OK\",\"model\":\"".to_owned();
        body.append(self.model.as_str());
        body.append("\",\"battery\":");
        body.append(text::signed_text(self.battery).as_str());
        body.append(",\"firmwareVersion\":\"1.90\",\"serialNo\":\"01234567\"}");
        body
    }

    fn photos_text(&self) -> (body: String)
        ensures
            body@ == photos_body(self@),
    {
        let ghost names = textmap::sorted(self@.files.dom());
        assert(self@.files.dom() =~= self.files@.dom());
        let directories: usize = self.files.len();
        let mut entries: Vec<String> = Vec::new();
        let mut i: usize = 0;
        while i < directories
            invariant
                i <= directories,
                directories == self.files@.dom().len(),
                directories == names.len(),
                names == textmap::sorted(self.files@.dom()),
                entries@.len() == i,
                forall|j: int|
                    0 <= j < i ==> (#[trigger] entries@[j])@ == directory_body(
                        names[j],
                        self@.files[names[j]],
                    ),
            decreases directories - i,
        {
            let (directory, files) = self.files.at(i);
            assert(self@.files[directory@] == bodies(*files));
            entries.push(directory_text(directory, files));
            i += 1;
        }
        assert(entries.deep_view() =~= names.map_values(
            |directory: Seq<char>| directory_body(directory, self@.files[directory]),
        ));
        let mut body = "{\"errCode\":200,\"errMsg\":\"OK\",\"dirs\":[".to_owned();
        body.append(text::join(&entries, ",").as_str());
        body.append("]}");
        body
    }

    fn serve_info(&self, directory: &str, filename: &str) -> (response: Response)
        ensures
            response@ == info_response(self@, directory@, filename@),
    {
        match self.body(directory, filename) {
            Some(body) => {
                let mut text = "{\"errCode\":200,\"errMsg\":\"OK\",\"n\":".to_owned();
                text.append(text::decimal_text(body.len() as u64).as_str());
                text.append("}");
                respond(200, "application/json", text.as_str())
            },
            None => respond(404, "application/json", "{\"errCode\":404,\"errMsg\":\"not found\"}"),
        }
    }

    fn serve_photo(&self, directory: &str, filename: &str) -> (response: Response)
        ensures
            response@ == photo_response(self@, directory@, filename@),
    {
        match self.body(directory, filename) {
            Some(body) => {
                if self.is_broken(filename) {
                    let half = vstd::slice::slice_subrange(body.as_slice(), 0, body.len() / 2);
                    assert(half@ =~= body@.take(body@.len() as int / 2));
                    Response {
                        status: 200,
                        content_type: "image/jpeg",
                        announced: body.len() as u128 + 4096,
                        body: vstd::slice::slice_to_vec(half),
                    }
                } else {
                    Response {
                        status: 200,
                        content_type: "image/jpeg",
                        announced: body.len() as u128,
                        body: vstd::slice::slice_to_vec(body.as_slice()),
                    }
                }
            },
            None => respond(404, "text/plain", "not found"),
        }
    }

    /// Answer a GET.
    pub fn serve_get(&self, path: &str) -> (response: Response)
        ensures
            response@ == get_response(self@, path@),
    {
        if text::same(path, "/v1/ping") {
            return respond(200, "application/json", "{\"errCode\":200,\"errMsg\":\"OK\"}");
        }
        if text::same(path, "/v1/props") {
            return respond(200, "application/json", self.props_text().as_str());
        }
        if text::same(path, "/v1/photos") {
            return respond(200, "application/json", self.photos_text().as_str());
        }
        let inner = text::trim_leading_slashes(text::trim_trailing_slashes(path).as_str());
        let parts = text::split(inner.as_str(), '/');
        let ghost pieces = segments(path@);
        assert(parts.deep_view() == pieces);
        assert(forall|i: int| 0 <= i < pieces.len() ==> #[trigger] pieces[i] == parts@[i]@);
        if parts.len() == 5 && text::same(parts[0].as_str(), "v1") && text::same(
            parts[1].as_str(),
            "photos",
        ) && text::same(parts[4].as_str(), "info") {
            return self.serve_info(parts[2].as_str(), parts[3].as_str());
        }
        if parts.len() == 4 && text::same(parts[0].as_str(), "v1") && text::same(
            parts[1].as_str(),
            "photos",
        ) {
            return self.serve_photo(parts[2].as_str(), parts[3].as_str());
        }
        respond(404, "text/plain", "not found")
    }

    /// Answer a POST.
    pub fn serve_post(&mut self, path: &str) -> (response: Response)
        ensures
            (final(self)@, response@) == post_response(old(self)@, path@),
    {
        if text::same(path, "/v1/device/wlan/finish") {
            self.wlan_finished = true;
            respond(200, "application/json", "{\"errCode\":200,\"errMsg\":\"OK\"}")
        } else if text::same(path, "/v1/device/finish") {
            self.device_finished = true;
            respond(200, "application/json", "{\"errCode\":200,\"errMsg\":\"OK\"}")
        } else {
            respond(404, "text/plain", "not found")
        }
    }

    /// Note a request, and answer it.
    pub fn serve(&mut self, method: &str, path: &str) -> (response: Response)
        ensures
            (final(self)@, response@) == served(old(self)@, method@, path@),
    {
        let mut line = method.to_owned();
        line.append(" ");
        line.append(path);
        self.requests.push(line);
        proof {
            assert(self@.requests =~= old(self)@.requests.push(line@));
            assert(self@ =~= CardView {
                requests: old(self)@.requests.push(method@ + " "@ + path@),
                ..old(self)@
            });
        }
        if text::same(method, "GET") {
            self.serve_get(path)
        } else if text::same(method, "POST") {
            self.serve_post(path)
        } else {
            respond(405, "text/plain", "method not allowed")
        }
    }
}

fn directory_text(directory: &str, files: &TextMap<Vec<u8>>) -> (body: String)
    ensures
        body@ == directory_body(directory@, bodies(*files)),
{
    let ghost names = textmap::sorted(bodies(*files).dom());
    assert(bodies(*files).dom() =~= files@.dom());
    let count: usize = files.len();
    let mut quoted: Vec<String> = Vec::new();
    let mut i: usize = 0;
    while i < count
        invariant
            i <= count,
            names == textmap::sorted(files@.dom()),
            count == names.len(),
            count == files@.dom().len(),
            quoted@.len() == i,
            forall|j: int| 0 <= j < i ==> (#[trigger] quoted@[j])@ == in_quotes(names[j]),
        decreases count - i,
    {
        let (name, _) = files.at(i);
        let mut form = "\"".to_owned();
        form.append(name);
        form.append("\"");
        quoted.push(form);
        i += 1;
    }
    assert(quoted.deep_view() =~= names.map_values(|name: Seq<char>| in_quotes(name)));
    let mut body = "{\"name\":\"".to_owned();
    body.append(directory);
    body.append("\",\"files\":[");
    body.append(text::join(&quoted, ",").as_str());
    body.append("]}");
    body
}

/// What a request's first line asks for: a method and a path.
pub open spec fn request_of(line: Seq<char>) -> (Seq<char>, Seq<char>) {
    (
        match text::first_word(line) {
            Some(method) => method,
            None => seq![],
        },
        match text::first_word(text::after_first_word(line)) {
            Some(path) => path,
            None => "/"@,
        },
    )
}

/// Read a request's first line.
pub fn parse_request(line: &str) -> (request: (String, String))
    ensures
        (request.0@, request.1@) == request_of(line@),
{
    let (method, rest) = text::take_word(line);
    let (path, _) = text::take_word(rest.as_str());
    let method = match method {
        Some(method) => method,
        None => {
            let none = String::new();
            assert(none@ =~= Seq::<char>::empty());
            none
        },
    };
    let path = match path {
        Some(path) => path,
        None => "/".to_owned(),
    };
    (method, path)
}

/// What a header line says: that the headers are over, how long the body is, or
/// nothing that matters.
#[derive(Debug, Clone, Copy, PartialEq, Eq, Structural)]
pub enum Header {
    End,
    ContentLength(usize),
    Other,
}

/// What a header line says. A length that is not a number is none.
pub open spec fn header_of(line: Seq<char>) -> Header {
    if text::trimmed(line).len() == 0 {
        Header::End
    } else {
        match text::after_prefix(text::ascii_lower(line), "content-length:"@) {
            Some(value) => match text::unsigned_value(text::trimmed(value), usize::MAX as nat) {
                Some(length) => Header::ContentLength(length as usize),
                None => Header::ContentLength(0),
            },
            None => Header::Other,
        }
    }
}

/// Read a header line.
pub fn parse_header(line: &str) -> (header: Header)
    ensures
        header == header_of(line@),
{
    if text::trim(line).as_str().unicode_len() == 0 {
        return Header::End;
    }
    let lower = text::to_ascii_lower(line);
    match text::strip(lower.as_str(), "content-length:") {
        Some(value) => {
            let value = text::trim(value.as_str());
            match text::parse_unsigned(value.as_str(), usize::MAX as u64) {
                Some(length) => Header::ContentLength(length as usize),
                None => Header::ContentLength(0),
            }
        },
        None => Header::Other,
    }
}

/// What is added to a card is there, and what else was there stays.
pub proof fn lemma_adding(
    files: Files,
    directory: Seq<char>,
    filename: Seq<char>,
    body: Seq<u8>,
    other_directory: Seq<char>,
    other_filename: Seq<char>,
)
    ensures
        body_in(added(files, directory, filename, body), directory, filename) == Some(body),
        (other_directory, other_filename) != (directory, filename) ==> body_in(
            added(files, directory, filename, body),
            other_directory,
            other_filename,
        ) == body_in(files, other_directory, other_filename),
{
}

/// A name that a path can hold as one of its parts.
pub open spec fn is_part(name: Seq<char>) -> bool {
    name.len() > 0 && forall|i: int| 0 <= i < name.len() ==> name[i] != '/'
}

/// A file on the card is served where the client looks for it: whole, and with
/// its length announced.
pub proof fn lemma_a_file_is_served_at_its_path(card: CardView, photo: PhotoView, body: Seq<u8>)
    requires
        is_part(photo.directory),
        is_part(photo.filename),
        body_in(card.files, photo.directory, photo.filename) == Some(body),
        !card.broken.contains(photo.filename),
    ensures
        get_response(card, camera::body_path(photo, false)) == plain(200, "image/jpeg"@, body),
{
    lemma_photo_segments(photo);
}

/// A file cut short announces more than it sends, so that no client can take it
/// for whole.
pub proof fn lemma_a_broken_file_is_short(card: CardView, photo: PhotoView, body: Seq<u8>)
    requires
        is_part(photo.directory),
        is_part(photo.filename),
        body_in(card.files, photo.directory, photo.filename) == Some(body),
        card.broken.contains(photo.filename),
    ensures
        ({
            let response = get_response(card, camera::body_path(photo, false));
            response.status == 200 && response.body.len() < response.announced
        }),
{
    lemma_photo_segments(photo);
}

proof fn lemma_photo_segments(photo: PhotoView)
    requires
        is_part(photo.directory),
        is_part(photo.filename),
    ensures
        segments(camera::body_path(photo, false)) == seq![
            "v1"@,
            "photos"@,
            photo.directory,
            photo.filename,
        ],
        camera::body_path(photo, false) != "/v1/ping"@,
        camera::body_path(photo, false) != "/v1/props"@,
        camera::body_path(photo, false) != "/v1/photos"@,
{
    reveal_strlit("/v1/photos/");
    reveal_strlit("/v1/photos");
    reveal_strlit("/v1/ping");
    reveal_strlit("/v1/props");
    reveal_strlit("v1");
    reveal_strlit("photos");
    reveal_strlit("/");
    let path = camera::body_path(photo, false);
    assert(path.last() == photo.filename.last());
    assert(path.len() > 11);
    assert(text::without_trailing_slashes(path) == path);
    let inner = path.skip(1);
    assert(path[0] == '/');
    assert(inner[0] == 'v');
    reveal_with_fuel(text::without_leading_slashes, 2);
    assert(text::without_leading_slashes(path) == inner);
    let third = photo.directory.push('/') + photo.filename;
    let second = "photos"@.push('/') + third;
    assert(inner =~= "v1"@.push('/') + second);
    text::lemma_first_piece("v1"@, '/', second);
    text::lemma_first_piece("photos"@, '/', third);
    text::lemma_first_piece(photo.directory, '/', photo.filename);
    text::lemma_only_piece(photo.filename, '/');
    assert(segments(path) =~= seq!["v1"@, "photos"@, photo.directory, photo.filename]);
}

proof fn lemma_stems_differ(a: nat, b: nat)
    requires
        stem(a) == stem(b),
    ensures
        a == b,
{
    reveal_strlit("R");
    assert(stem(a).skip(1) =~= text::left_padded(text::decimal(a), '0', 7));
    assert(stem(b).skip(1) =~= text::left_padded(text::decimal(b), '0', 7));
    lemma_padded_value(a);
    lemma_padded_value(b);
}

proof fn lemma_padded_value(n: nat)
    ensures
        text::decimal_value(text::left_padded(text::decimal(n), '0', 7)) == n,
{
    text::lemma_decimal_reads_back(n);
    let digits = text::decimal(n);
    if digits.len() < 7 {
        text::lemma_leading_zeros(digits, (7 - digits.len()) as nat);
        assert(text::left_padded(digits, '0', 7) =~= Seq::new(
            (7 - digits.len()) as nat,
            |i: int| '0',
        ) + digits);
    }
}

proof fn lemma_names_differ(a: nat, b: nat)
    ensures
        stem(a) + ".JPG"@ != stem(b) + ".DNG"@,
        a != b ==> stem(a) + ".JPG"@ != stem(b) + ".JPG"@,
        a != b ==> stem(a) + ".DNG"@ != stem(b) + ".DNG"@,
{
    reveal_strlit(".JPG");
    reveal_strlit(".DNG");
    let jpeg = stem(a) + ".JPG"@;
    let raw = stem(b) + ".DNG"@;
    assert(jpeg.last() == 'G' && raw.last() == 'G');
    assert(jpeg[jpeg.len() - 2] == 'P' && raw[raw.len() - 2] == 'N');
    if stem(a) + ".JPG"@ == stem(b) + ".JPG"@ {
        let other = stem(b) + ".JPG"@;
        assert(jpeg.take(jpeg.len() - 4) =~= stem(a));
        assert(other.take(other.len() - 4) =~= stem(b));
        lemma_stems_differ(a, b);
    }
    if stem(a) + ".DNG"@ == stem(b) + ".DNG"@ {
        let other = stem(a) + ".DNG"@;
        assert(raw.take(raw.len() - 4) =~= stem(b));
        assert(other.take(other.len() - 4) =~= stem(a));
        lemma_stems_differ(a, b);
    }
}

proof fn lemma_pair_files(pairs: nat)
    requires
        pairs > 0,
    ensures
        pair_files(pairs).dom() == set!["100RICOH"@],
        pair_files(pairs)["100RICOH"@].dom().finite(),
        pair_files(pairs)["100RICOH"@].dom().len() == 2 * pairs,
        forall|name: Seq<char>| #[trigger]
            pair_files(pairs)["100RICOH"@].contains_key(name) ==> exists|k: nat|
                1 <= k <= pairs && (name == #[trigger] stem(k) + ".JPG"@ || name == stem(k)
                    + ".DNG"@),
    decreases pairs,
{
    let before = pair_files((pairs - 1) as nat);
    let there = if pairs == 1 {
        Map::<Seq<char>, Seq<u8>>::empty()
    } else {
        before["100RICOH"@]
    };
    if pairs > 1 {
        lemma_pair_files((pairs - 1) as nat);
    }
    let jpeg = stem(pairs) + ".JPG"@;
    let raw = stem(pairs) + ".DNG"@;
    let after = pair_files(pairs)["100RICOH"@];
    assert(before.contains_key("100RICOH"@) == (pairs > 1));
    assert(after.dom() =~= there.dom().insert(jpeg).insert(raw));
    lemma_names_differ(pairs, pairs);
    assert forall|name: Seq<char>| #[trigger] there.contains_key(name) implies name != jpeg && name
        != raw by {
        let k = choose|k: nat|
            1 <= k <= pairs - 1 && (name == #[trigger] stem(k) + ".JPG"@ || name == stem(k)
                + ".DNG"@);
        lemma_names_differ(k, pairs);
        lemma_names_differ(pairs, k);
    }
    assert(!there.dom().contains(jpeg)) by {
        if there.dom().contains(jpeg) {
            assert(there.contains_key(jpeg));
        }
    }
    assert(!there.dom().contains(raw)) by {
        if there.dom().contains(raw) {
            assert(there.contains_key(raw));
        }
    }
    assert(pair_files(pairs).dom() =~= set!["100RICOH"@]);
    assert forall|name: Seq<char>| #[trigger] after.contains_key(name) implies exists|k: nat|
        1 <= k <= pairs && (name == #[trigger] stem(k) + ".JPG"@ || name == stem(k) + ".DNG"@) by {
        if name == jpeg || name == raw {
            assert(name == stem(pairs) + ".JPG"@ || name == stem(pairs) + ".DNG"@);
        } else {
            assert(there.contains_key(name));
            let k = choose|k: nat|
                1 <= k <= pairs - 1 && (name == #[trigger] stem(k) + ".JPG"@ || name == stem(k)
                    + ".DNG"@);
            assert(1 <= k <= pairs);
        }
    }
}

/// A card of pairs has two files per shot.
pub proof fn lemma_two_files_per_shot(pairs: nat)
    ensures
        count_of(pair_files(pairs)) == 2 * pairs,
{
    let files = pair_files(pairs);
    if pairs == 0 {
        let none = Seq::<Seq<char>>::empty();
        assert(files.dom() =~= Set::empty());
        textmap::lemma_sorted(none, files.dom());
    } else {
        lemma_pair_files(pairs);
        let one = seq!["100RICOH"@];
        assert forall|key: Seq<char>| #[trigger] one.contains(key) <==> files.dom().contains(key) by {
            assert(one[0] == "100RICOH"@);
        }
        textmap::lemma_sorted(one, files.dom());
        reveal_with_fuel(count_from, 2);
    }
}

/// Every request is noted, whatever its method and its answer, and nothing but the two
/// requests to finish changes the card otherwise: each of those sets its own switch,
/// and no request touches the files.
pub proof fn lemma_what_a_request_does(card: CardView, method: Seq<char>, path: Seq<char>)
    ensures
        ({
            let after = served(card, method, path).0;
            &&& after.requests == card.requests.push(method + " "@ + path)
            &&& after.files == card.files
            &&& after.broken == card.broken
            &&& after.model == card.model
            &&& after.battery == card.battery
            &&& after.wlan_finished <==> card.wlan_finished || (method == "POST"@ && path
                == "/v1/device/wlan/finish"@)
            &&& after.device_finished <==> card.device_finished || (method == "POST"@ && path
                == "/v1/device/finish"@)
        }),
{
    reveal_strlit("GET");
    reveal_strlit("POST");
    reveal_strlit("/v1/device/wlan/finish");
    reveal_strlit("/v1/device/finish");
    assert("GET"@.len() == 3 && "POST"@.len() == 4);
    assert("/v1/device/wlan/finish"@.len() == 22 && "/v1/device/finish"@.len() == 17);
}

/// What is asked for in any other way is refused: an unknown method with 405, and a
/// post to anywhere but the two requests to finish with 404; those are answered 200.
pub proof fn lemma_what_is_refused(card: CardView, method: Seq<char>, path: Seq<char>)
    ensures
        method != "GET"@ && method != "POST"@ ==> served(card, method, path).1.status == 405,
        method == "POST"@ ==> served(card, method, path).1.status == if path
            == "/v1/device/wlan/finish"@ || path == "/v1/device/finish"@ {
            200u16
        } else {
            404u16
        },
{
    reveal_strlit("GET");
    reveal_strlit("POST");
    assert("GET"@.len() == 3 && "POST"@.len() == 4);
}

/// A file that is not on the card is not found, whether its body or its description is
/// asked for; one that is has its description served beside it, with its length.
pub proof fn lemma_where_descriptions_are_served(card: CardView, photo: PhotoView)
    requires
        is_part(photo.directory),
        is_part(photo.filename),
    ensures
        body_in(card.files, photo.directory, photo.filename) is None ==> get_response(
            card,
            camera::body_path(photo, false),
        ).status == 404 && get_response(card, camera::info_path(photo)).status == 404,
        body_in(card.files, photo.directory, photo.filename) matches Some(body) ==> get_response(
            card,
            camera::info_path(photo),
        ) == json_response(
            200,
            "{\"errCode\":200,\"errMsg\":\"OK\",\"n\":"@ + text::decimal(body.len()) + "}"@,
        ),
{
    lemma_photo_segments(photo);
    reveal_strlit("/v1/photos/");
    reveal_strlit("/v1/photos");
    reveal_strlit("/v1/ping");
    reveal_strlit("/v1/props");
    reveal_strlit("v1");
    reveal_strlit("photos");
    reveal_strlit("/");
    reveal_strlit("/info");
    reveal_strlit("info");
    let path = camera::info_path(photo);
    assert(path.len() > 11);
    assert(path.last() == 'o');
    assert(text::without_trailing_slashes(path) == path);
    let inner = path.skip(1);
    assert(path[0] == '/');
    assert(inner[0] == 'v');
    reveal_with_fuel(text::without_leading_slashes, 2);
    assert(text::without_leading_slashes(path) == inner);
    let fourth = photo.filename.push('/') + "info"@;
    let third = photo.directory.push('/') + fourth;
    let second = "photos"@.push('/') + third;
    assert(inner =~= "v1"@.push('/') + second);
    text::lemma_first_piece("v1"@, '/', second);
    text::lemma_first_piece("photos"@, '/', third);
    text::lemma_first_piece(photo.directory, '/', fourth);
    text::lemma_first_piece(photo.filename, '/', "info"@);
    text::lemma_only_piece("info"@, '/');
    assert(segments(path) =~= seq![
        "v1"@,
        "photos"@,
        photo.directory,
        photo.filename,
        "info"@,
    ]);
}

/// A request line is read by its words: the first is the method and the second the
/// path, whatever white space sets them apart; without one there is no method, and the
/// path is the root.
pub proof fn lemma_request_lines(method: Seq<char>, gap: Seq<char>, path: Seq<char>, rest: Seq<char>)
    requires
        method.len() > 0,
        gap.len() > 0,
        path.len() > 0,
        forall|i: int| 0 <= i < method.len() ==> !text::is_white(#[trigger] method[i]),
        forall|i: int| 0 <= i < gap.len() ==> text::is_white(#[trigger] gap[i]),
        forall|i: int| 0 <= i < path.len() ==> !text::is_white(#[trigger] path[i]),
        rest.len() > 0 ==> text::is_white(rest[0]),
    ensures
        request_of(method + gap + path + rest) == (method, path),
        request_of(gap) == (Seq::<char>::empty(), "/"@),
        request_of(method + gap) == (method, "/"@),
{
    let none = Seq::<char>::empty();
    let tail = gap + path + rest;
    assert(tail[0] == gap[0]);
    text::lemma_words(none, method, tail);
    assert(none + method + tail =~= method + gap + path + rest);
    text::lemma_words(gap, path, rest);
    text::lemma_words(none, method, gap);
    assert(none + method + gap =~= method + gap);
    text::lemma_words(gap, none, none);
    lemma_nothing_after_white(gap);
}

proof fn lemma_nothing_after_white(gap: Seq<char>)
    requires
        forall|i: int| 0 <= i < gap.len() ==> text::is_white(#[trigger] gap[i]),
    ensures
        text::first_word(text::after_first_word(gap)) is None,
{
    let none = Seq::<char>::empty();
    text::lemma_trimming(gap, none, none);
    lemma_all_white(gap);
    assert(text::word_length(none) == 0);
    assert(none.skip(0) =~= none);
}

proof fn lemma_all_white(gap: Seq<char>)
    requires
        forall|i: int| 0 <= i < gap.len() ==> text::is_white(#[trigger] gap[i]),
    ensures
        text::trimmed_start(gap) == Seq::<char>::empty(),
    decreases gap.len(),
{
    if gap.len() > 0 {
        lemma_all_white(gap.skip(1));
    }
}

/// A header line is read by its name in any case: a length reads back as the number it
/// is, with white space around it or not, a blank line ends the headers, and any other
/// is passed over.
pub proof fn lemma_header_lines(
    name: Seq<char>,
    front: Seq<char>,
    length: usize,
    back: Seq<char>,
    line: Seq<char>,
)
    requires
        text::ascii_lower(name) == "content-length:"@,
        forall|i: int| 0 <= i < front.len() ==> text::is_white(#[trigger] front[i]),
        forall|i: int| 0 <= i < back.len() ==> text::is_white(#[trigger] back[i]),
    ensures
        header_of(name + front + text::decimal(length as nat) + back) == Header::ContentLength(
            length,
        ),
        header_of(front) == Header::End,
        (text::trimmed(line).len() > 0 && !text::has_prefix(
            text::ascii_lower(line),
            "content-length:"@,
        )) ==> header_of(line) == Header::Other,
{
    reveal_strlit("content-length:");
    let digits = text::decimal(length as nat);
    let value = front + digits + back;
    let whole = name + front + digits + back;
    let lower = text::ascii_lower(whole);
    text::lemma_decimal_reads_back(length as nat);
    assert(whole =~= name + value);
    assert(name.len() == 15);
    assert(lower.take(15) =~= "content-length:"@) by {
        assert forall|i: int| 0 <= i < 15 implies lower.take(15)[i] == "content-length:"@[i] by {
            assert(lower[i] == text::lower_char(name[i]));
            assert(text::ascii_lower(name)[i] == text::lower_char(name[i]));
        }
    }
    assert(lower.skip(15) =~= text::ascii_lower(value));
    assert(text::ascii_lower(value) =~= value) by {
        assert forall|i: int| 0 <= i < value.len() implies text::lower_char(value[i])
            == value[i] by {
            if i < front.len() {
                assert(text::is_white(front[i]));
            } else if i < front.len() + digits.len() {
                assert(text::is_digit(digits[i - front.len()]));
            } else {
                assert(text::is_white(back[i - front.len() - digits.len()]));
            }
        }
    }
    assert(text::is_digit(digits[0]) && text::is_digit(digits[digits.len() - 1]));
    text::lemma_trimming(front, digits, back);
    text::lemma_numbers_read_back(length as nat, usize::MAX as nat, 0);
    assert(Seq::new(0, |i: int| '0') + digits =~= digits);
    let none = Seq::<char>::empty();
    text::lemma_trimming(front, none, none);
    assert(front + none + none =~= front);
    assert(text::trimmed(whole).len() > 0) by {
        assert(name[0] != ' ') by {
            assert(text::ascii_lower(name)[0] == text::lower_char(name[0]));
        }
        assert(!text::is_white(name[0])) by {
            assert(text::lower_char(name[0]) == 'c');
        }
        let inner = name + front + digits;
        assert(inner[0] == name[0]);
        assert(inner.last() == digits.last());
        text::lemma_trimming(none, inner, back);
        assert(none + inner + back =~= whole);
    }
}

/// What stands before a body reads back as it should: a status line with the status,
/// then the kind, then the length that is announced, then that the connection closes,
/// and then a blank line.
pub proof fn lemma_what_a_head_says(response: ResponseView, rest: Seq<char>)
    requires
        0 <= response.announced <= usize::MAX,
        forall|i: int|
            0 <= i < response.content_type.len() ==> response.content_type[i] != '\n'
                && response.content_type[i] != '\r',
    ensures
        ({
            let lines = text::lines(head_text(response) + rest);
            &&& lines.len() >= 5
            &&& text::has_prefix(lines[0], "HTTP/1.1 "@ + text::decimal(response.status as nat))
            &&& lines[1] == "Content-Type: "@ + response.content_type
            &&& header_of(lines[2]) == Header::ContentLength(response.announced as usize)
            &&& lines[3] == "Connection: close"@
            &&& header_of(lines[4]) == Header::End
        }),
{
    reveal_strlit("HTTP/1.1 ");
    reveal_strlit(" ");
    reveal_strlit("OK");
    reveal_strlit("Not Found");
    reveal_strlit("Method Not Allowed");
    reveal_strlit("Error");
    reveal_strlit("\r\nContent-Type: ");
    reveal_strlit("\r\nContent-Length: ");
    reveal_strlit("\r\nConnection: close\r\n\r\n");
    reveal_strlit("Content-Type: ");
    reveal_strlit("Content-Length:");
    reveal_strlit("Connection: close");
    reveal_strlit("content-length:");
    let status = text::decimal(response.status as nat);
    let length = text::decimal(response.announced as nat);
    text::lemma_decimal_reads_back(response.status as nat);
    text::lemma_decimal_reads_back(response.announced as nat);
    let none = Seq::<char>::empty();
    let first = "HTTP/1.1 "@ + status + " "@ + reason_phrase(response.status);
    let second = "Content-Type: "@ + response.content_type;
    let name = "Content-Length:"@;
    let third = name + seq![' '] + length + none;
    let fourth = "Connection: close"@;
    let e = rest;
    let d = none.push('\r').push('\n') + e;
    let c = fourth.push('\r').push('\n') + d;
    let b = third.push('\r').push('\n') + c;
    let a = second.push('\r').push('\n') + b;
    assert(head_text(response) + rest =~= first.push('\r').push('\n') + a);
    assert forall|i: int| 0 <= i < first.len() implies first[i] != '\n' by {
        if 9 <= i < 9 + status.len() {
            assert(text::is_digit(status[i - 9]));
        }
    }
    assert forall|i: int| 0 <= i < third.len() implies third[i] != '\n' by {
        if i >= 16 {
            assert(text::is_digit(length[i - 16]));
        }
    }
    text::lemma_first_line(first, a);
    text::lemma_first_line(second, b);
    text::lemma_first_line(third, c);
    text::lemma_first_line(fourth, d);
    text::lemma_first_line(none, e);
    let lines = text::lines(head_text(response) + rest);
    assert(lines =~= seq![first, second, third, fourth, none] + text::lines(e));
    assert(first.take(9 + status.len() as int) =~= "HTTP/1.1 "@ + status);
    assert(text::ascii_lower(name) =~= "content-length:"@);
    lemma_header_lines(name, seq![' '], response.announced as usize, none, none);
    lemma_header_lines(name, none, 0, none, none);
}

/// Every directory counts: a card has the files of one directory and those of the card
/// without it.
pub proof fn lemma_every_directory_counts(
    files: Files,
    directories: Seq<Seq<char>>,
    directory: Seq<char>,
)
    requires
        textmap::lists(directories, files.dom()),
        files.contains_key(directory),
    ensures
        count_of(files) == files[directory].dom().len() + count_of(files.remove(directory)),
        count_of(Map::empty()) == 0,
{
    textmap::lemma_sorted(directories, files.dom());
    let fewer = files.remove(directory);
    assert(directories.contains(directory));
    let k = directories.index_of(directory);
    let rest = directories.remove(k);
    assert(textmap::lists(rest, fewer.dom())) by {
        assert forall|i: int, j: int| 0 <= i < j < rest.len() implies textmap::precedes(
            #[trigger] rest[i],
            #[trigger] rest[j],
        ) by {
            let x = if i < k {
                i
            } else {
                i + 1
            };
            let y = if j < k {
                j
            } else {
                j + 1
            };
            assert(rest[i] == directories[x] && rest[j] == directories[y]);
        }
        assert forall|key: Seq<char>| #[trigger] rest.contains(key) <==> fewer.dom().contains(
            key,
        ) by {
            if rest.contains(key) {
                let i = rest.index_of(key);
                let x = if i < k {
                    i
                } else {
                    i + 1
                };
                assert(directories[x] == key);
                assert(directories.contains(key));
                if key == directory {
                    if x < k {
                        textmap::lemma_precedes_is_strict(directories[x], directories[k]);
                    } else {
                        textmap::lemma_precedes_is_strict(directories[k], directories[x]);
                    }
                }
            }
            if fewer.dom().contains(key) {
                assert(directories.contains(key));
                let x = directories.index_of(key);
                assert(x != k);
                let i = if x < k {
                    x
                } else {
                    x - 1
                };
                assert(rest[i] == key);
            }
        }
    }
    textmap::lemma_sorted(rest, fewer.dom());
    lemma_count_without(files, directories, directory, k, 0);
    let none = Seq::<Seq<char>>::empty();
    let empty: Files = Map::empty();
    assert(textmap::lists(none, empty.dom()));
    textmap::lemma_sorted(none, empty.dom());
}

proof fn lemma_count_without(
    files: Files,
    directories: Seq<Seq<char>>,
    directory: Seq<char>,
    k: int,
    from: nat,
)
    requires
        0 <= k < directories.len(),
        directories[k] == directory,
        textmap::ascending(directories),
        from <= directories.len(),
    ensures
        from <= k ==> count_from(files, directories, from) == files[directory].dom().len()
            + count_from(files.remove(directory), directories.remove(k), from),
        from > k ==> count_from(files, directories, from) == count_from(
            files.remove(directory),
            directories.remove(k),
            (from - 1) as nat,
        ),
    decreases directories.len() - from,
{
    let rest = directories.remove(k);
    if from < directories.len() {
        lemma_count_without(files, directories, directory, k, from + 1);
        if from < k {
            assert(rest[from as int] == directories[from as int]);
            textmap::lemma_precedes_is_strict(directories[from as int], directories[k]);
        } else if from > k {
            assert(rest[from - 1] == directories[from as int]);
            textmap::lemma_precedes_is_strict(directories[k], directories[from as int]);
        }
    }
}

/// A card of pairs has both files of every shot, each with a body of its own.
pub proof fn lemma_every_shot_has_both_files(pairs: nat, shot: nat)
    requires
        1 <= shot <= pairs,
    ensures
        body_in(pair_files(pairs), "100RICOH"@, stem(shot) + ".JPG"@) == Some(
            body_of("jpeg"@, shot, 512),
        ),
        body_in(pair_files(pairs), "100RICOH"@, stem(shot) + ".DNG"@) == Some(
            body_of("dng-"@, shot, 2048),
        ),
    decreases pairs,
{
    lemma_names_differ(pairs, pairs);
    if shot < pairs {
        lemma_every_shot_has_both_files((pairs - 1) as nat, shot);
        lemma_names_differ(pairs, shot);
        lemma_names_differ(shot, pairs);
    }
}

} // verus!
