//! Error taxonomy.
//!
//! Every failure mode a caller might want to react to differently gets its own
//! variant, so nothing has to be recovered by matching on message text.

use crate::ids;
use crate::ids::Uuid;
use crate::text;
use vstd::prelude::*;

verus! {

pub type Result<T> = std::result::Result<T, Error>;

#[derive(Debug)]
pub enum Error {
    /// The host's Bluetooth stack is unusable: no adapter, radio off, or (on
    /// Linux) BlueZ not running.
    BluetoothUnavailable(String),
    CameraNotFound,
    AmbiguousCamera(String),
    Ble(String),
    /// A characteristic the camera should expose was not in its GATT table.
    MissingCharacteristic(Uuid),
    /// A characteristic answered with bytes that do not fit the documented
    /// layout. Surfaced rather than guessed at, because guessing here would
    /// mean writing a wrong value back to the camera.
    BadCharacteristicValue { uuid: Uuid, got: usize, want: &'static str },
    Http(String),
    /// The camera answered, but with a non-200 `errCode` in its JSON envelope.
    CameraApi { code: i64, message: String, endpoint: String },
    CameraUnreachable { host: String, secs: u64 },
    Network(String),
    NoWifiBackend,
    BatteryTooLow { level: i8, floor: i8 },
    Config(String),
    /// `source` is the text of the operating system's error.
    Io { context: String, source: String },
}

/// An error, mathematically.
#[verifier::ext_equal]
pub enum ErrorView {
    BluetoothUnavailable(Seq<char>),
    CameraNotFound,
    AmbiguousCamera(Seq<char>),
    Ble(Seq<char>),
    MissingCharacteristic(Uuid),
    BadCharacteristicValue { uuid: Uuid, got: usize, want: Seq<char> },
    Http(Seq<char>),
    CameraApi { code: i64, message: Seq<char>, endpoint: Seq<char> },
    CameraUnreachable { host: Seq<char>, secs: u64 },
    Network(Seq<char>),
    NoWifiBackend,
    BatteryTooLow { level: i8, floor: i8 },
    Config(Seq<char>),
    Io { context: Seq<char>, source: Seq<char> },
}

/// What a call gives back, mathematically.
pub type ResultView<T> = std::result::Result<T, ErrorView>;

/// What a call gave back, seen mathematically.
pub open spec fn seen<T: DeepView>(result: Result<T>) -> ResultView<T::V> {
    match result {
        Ok(value) => Ok(value.deep_view()),
        Err(error) => Err(error@),
    }
}

impl View for Error {
    type V = ErrorView;

    open spec fn view(&self) -> ErrorView {
        match *self {
            Error::BluetoothUnavailable(detail) => ErrorView::BluetoothUnavailable(detail@),
            Error::CameraNotFound => ErrorView::CameraNotFound,
            Error::AmbiguousCamera(labels) => ErrorView::AmbiguousCamera(labels@),
            Error::Ble(detail) => ErrorView::Ble(detail@),
            Error::MissingCharacteristic(uuid) => ErrorView::MissingCharacteristic(uuid),
            Error::BadCharacteristicValue { uuid, got, want } => {
                ErrorView::BadCharacteristicValue { uuid, got, want: want@ }
            },
            Error::Http(detail) => ErrorView::Http(detail@),
            Error::CameraApi { code, message, endpoint } => {
                ErrorView::CameraApi { code, message: message@, endpoint: endpoint@ }
            },
            Error::CameraUnreachable { host, secs } => {
                ErrorView::CameraUnreachable { host: host@, secs }
            },
            Error::Network(detail) => ErrorView::Network(detail@),
            Error::NoWifiBackend => ErrorView::NoWifiBackend,
            Error::BatteryTooLow { level, floor } => ErrorView::BatteryTooLow { level, floor },
            Error::Config(detail) => ErrorView::Config(detail@),
            Error::Io { context, source } => {
                ErrorView::Io { context: context@, source: source@ }
            },
        }
    }
}

/// The text that tells a person what went wrong.
pub open spec fn error_message(error: ErrorView) -> Seq<char> {
    match error {
        ErrorView::BluetoothUnavailable(detail) => "Bluetooth is unavailable: "@ + detail
            + "\nCheck that this host has a BLE adapter, that Bluetooth is switched on, and — on Linux — that the bluetooth service is running."@,
        ErrorView::CameraNotFound =>
            "no GR camera found over BLE. Check that the camera is paired with this host and that its Bluetooth setting is on (Enable Condition = 'On anytime' is required to reach a powered-off camera)."@,
        ErrorView::AmbiguousCamera(labels) => "multiple GR cameras in range: "@ + labels
            + ". Pass --address to choose one."@,
        ErrorView::Ble(detail) => "BLE: "@ + detail,
        ErrorView::MissingCharacteristic(uuid) => "the camera does not expose characteristic "@
            + ids::uuid_chars(uuid) + " — is this really a GR III?"@,
        ErrorView::BadCharacteristicValue { uuid, got, want } => "characteristic "@
            + ids::uuid_chars(uuid) + " returned "@ + text::decimal(got as nat)
            + " bytes, expected "@ + want,
        ErrorView::Http(detail) => detail,
        ErrorView::CameraApi { code, message, endpoint } => endpoint + ": errCode="@
            + text::signed_decimal(code as int) + " errMsg="@ + text::quoted_form(message),
        ErrorView::CameraUnreachable { host, secs } => "camera did not answer at "@ + host
            + " within "@ + text::decimal(secs as nat)
            + "s. Is this host associated with the camera's Wi-Fi network?"@,
        ErrorView::Network(detail) => detail,
        ErrorView::NoWifiBackend => "no usable Wi-Fi backend on this host"@,
        ErrorView::BatteryTooLow { level, floor } => "battery at "@ + text::signed_decimal(
            level as int,
        ) + "% is below the "@ + text::signed_decimal(floor as int)
            + "% floor; charge the camera or pass --min-battery 0"@,
        ErrorView::Config(detail) => detail,
        ErrorView::Io { context, source } => context + ": "@ + source,
    }
}

impl Error {
    pub fn io(context: &str, source: &str) -> (error: Self)
        ensures
            error@ == (ErrorView::Io { context: context@, source: source@ }),
    {
        Error::Io { context: context.to_owned(), source: source.to_owned() }
    }

    /// The text that tells a person what went wrong.
    pub fn message(&self) -> (text: String)
        ensures
            text@ == error_message(self@),
    {
        match self {
            Error::BluetoothUnavailable(detail) => {
                let mut text = "Bluetooth is unavailable: ".to_owned();
                text.append(detail.as_str());
                text.append(
                    "\nCheck that this host has a BLE adapter, that Bluetooth is switched on, and — on Linux — that the bluetooth service is running.",
                );
                text
            },
            Error::CameraNotFound =>
                "no GR camera found over BLE. Check that the camera is paired with this host and that its Bluetooth setting is on (Enable Condition = 'On anytime' is required to reach a powered-off camera).".to_owned(),
            Error::AmbiguousCamera(labels) => {
                let mut text = "multiple GR cameras in range: ".to_owned();
                text.append(labels.as_str());
                text.append(". Pass --address to choose one.");
                text
            },
            Error::Ble(detail) => {
                let mut text = "BLE: ".to_owned();
                text.append(detail.as_str());
                text
            },
            Error::MissingCharacteristic(uuid) => {
                let mut text = "the camera does not expose characteristic ".to_owned();
                text.append(ids::uuid_text(*uuid).as_str());
                text.append(" — is this really a GR III?");
                text
            },
            Error::BadCharacteristicValue { uuid, got, want } => {
                let mut text = "characteristic ".to_owned();
                text.append(ids::uuid_text(*uuid).as_str());
                text.append(" returned ");
                text.append(text::decimal_text(*got as u64).as_str());
                text.append(" bytes, expected ");
                text.append(want);
                text
            },
            Error::Http(detail) => detail.clone(),
            Error::CameraApi { code, message, endpoint } => {
                let mut text = endpoint.clone();
                text.append(": errCode=");
                text.append(text::signed_text(*code).as_str());
                text.append(" errMsg=");
                text.append(text::quoted(message.as_str()).as_str());
                text
            },
            Error::CameraUnreachable { host, secs } => {
                let mut text = "camera did not answer at ".to_owned();
                text.append(host.as_str());
                text.append(" within ");
                text.append(text::decimal_text(*secs).as_str());
                text.append("s. Is this host associated with the camera's Wi-Fi network?");
                text
            },
            Error::Network(detail) => detail.clone(),
            Error::NoWifiBackend => "no usable Wi-Fi backend on this host".to_owned(),
            Error::BatteryTooLow { level, floor } => {
                let mut text = "battery at ".to_owned();
                text.append(text::signed_text(*level as i64).as_str());
                text.append("% is below the ");
                text.append(text::signed_text(*floor as i64).as_str());
                text.append("% floor; charge the camera or pass --min-battery 0");
                text
            },
            Error::Config(detail) => detail.clone(),
            Error::Io { context, source } => {
                let mut text = context.clone();
                text.append(": ");
                text.append(source.as_str());
                text
            },
        }
    }

    /// Process exit code. Distinguishing "the sync ran but some files failed"
    /// (1) from "it could not run at all" (2) lets a wrapper retry only the
    /// second case.
    pub fn exit_code(&self) -> (code: i32)
        ensures
            code == 2,
    {
        2
    }
}

/// A message names its cause: what went wrong stands in it as it was given.
pub proof fn lemma_messages_name_their_causes(
    detail: Seq<char>,
    context: Seq<char>,
    code: i64,
    secs: u64,
    level: i8,
    floor: i8,
)
    ensures
        error_message(ErrorView::Http(detail)) == detail,
        error_message(ErrorView::Network(detail)) == detail,
        error_message(ErrorView::Config(detail)) == detail,
        error_message(ErrorView::Ble(detail)) == "BLE: "@ + detail,
        error_message(ErrorView::Io { context, source: detail }) == context + ": "@ + detail,
        text::has_prefix(
            error_message(ErrorView::AmbiguousCamera(detail)),
            "multiple GR cameras in range: "@ + detail,
        ),
        text::has_prefix(
            error_message(ErrorView::BluetoothUnavailable(detail)),
            "Bluetooth is unavailable: "@ + detail,
        ),
        text::has_prefix(
            error_message(ErrorView::CameraApi { code, message: detail, endpoint: context }),
            context + ": errCode="@ + text::signed_decimal(code as int),
        ),
        text::has_prefix(
            error_message(ErrorView::CameraUnreachable { host: detail, secs }),
            "camera did not answer at "@ + detail + " within "@ + text::decimal(secs as nat)
                + "s"@,
        ),
        text::has_prefix(
            error_message(ErrorView::BatteryTooLow { level, floor }),
            "battery at "@ + text::signed_decimal(level as int) + "% is below the "@
                + text::signed_decimal(floor as int) + "% floor"@,
        ),
{
    reveal_strlit("s");
    reveal_strlit("s. Is this host associated with the camera's Wi-Fi network?");
    reveal_strlit("% floor");
    reveal_strlit("% floor; charge the camera or pass --min-battery 0");
    let many = "multiple GR cameras in range: "@ + detail;
    assert(error_message(ErrorView::AmbiguousCamera(detail)).take(many.len() as int) =~= many);
    let none = "Bluetooth is unavailable: "@ + detail;
    assert(error_message(ErrorView::BluetoothUnavailable(detail)).take(none.len() as int)
        =~= none);
    let api = context + ": errCode="@ + text::signed_decimal(code as int);
    assert(error_message(
        ErrorView::CameraApi { code, message: detail, endpoint: context },
    ).take(api.len() as int) =~= api);
    let away = "camera did not answer at "@ + detail + " within "@ + text::decimal(secs as nat)
        + "s"@;
    assert(error_message(ErrorView::CameraUnreachable { host: detail, secs }).take(
        away.len() as int,
    ) =~= away);
    let low = "battery at "@ + text::signed_decimal(level as int) + "% is below the "@
        + text::signed_decimal(floor as int) + "% floor"@;
    assert(error_message(ErrorView::BatteryTooLow { level, floor }).take(low.len() as int)
        =~= low);
}

} // verus!
