//! Host-side Wi-Fi control: join the camera's access point, then put the host back.
//!
//! The GR III's wireless LAN is **AP mode only**: there is no station mode in
//! which the camera would join an existing network. Syncing therefore means
//! taking the host's Wi-Fi interface off whatever it was on, associating with
//! the camera, and restoring the previous association afterwards. That is the
//! one genuinely OS-specific part of gr3sync, so it lives behind a small
//! backend interface.
//!
//! A backend is not asked to join where the camera AP is already the active
//! network, and leaves the interface untouched when `restore` has nothing to
//! restore.

use crate::error;
use crate::error::{Error, ErrorView, Result, ResultView};
use crate::procedure::{Step, StepView};
use crate::text;
use vstd::prelude::*;

verus! {

/// What the host's Wi-Fi was doing before we interfered.
#[derive(Debug, PartialEq, Eq)]
pub struct WifiState {
    pub interface: Option<String>,
    pub ssid: Option<String>,
    /// Backend-specific handle (e.g. a NetworkManager connection name) that
    /// identifies the association more precisely than the SSID alone.
    pub profile: Option<String>,
}

/// The host's association, mathematically.
#[verifier::ext_equal]
pub struct WifiStateView {
    pub interface: Option<Seq<char>>,
    pub ssid: Option<Seq<char>>,
    pub profile: Option<Seq<char>>,
}

impl View for WifiState {
    type V = WifiStateView;

    open spec fn view(&self) -> WifiStateView {
        WifiStateView {
            interface: self.interface.deep_view(),
            ssid: self.ssid.deep_view(),
            profile: self.profile.deep_view(),
        }
    }
}

impl DeepView for WifiState {
    type V = WifiStateView;

    open spec fn deep_view(&self) -> WifiStateView {
        self@
    }
}

/// Not associated with anything known.
pub open spec fn no_association() -> WifiStateView {
    WifiStateView { interface: None, ssid: None, profile: None }
}

impl Default for WifiState {
    fn default() -> (state: Self)
        ensures
            state@ == no_association(),
    {
        WifiState { interface: None, ssid: None, profile: None }
    }
}

impl Clone for WifiState {
    fn clone(&self) -> (copy: Self)
        ensures
            copy@ == self@,
    {
        WifiState {
            interface: self.interface.clone(),
            ssid: self.ssid.clone(),
            profile: self.profile.clone(),
        }
    }
}

/// Injected so the command construction can be tested without touching the
/// host's network. `timeout` is in milliseconds.
pub trait Runner {
    fn run(&self, argv: &[&str], timeout: u64) -> Result<Output>;
}

#[derive(Debug)]
pub struct Output {
    pub status: i32,
    pub stdout: String,
    pub stderr: String,
}

/// What a command left behind, mathematically.
#[verifier::ext_equal]
pub struct OutputView {
    pub status: i32,
    pub stdout: Seq<char>,
    pub stderr: Seq<char>,
}

impl View for Output {
    type V = OutputView;

    open spec fn view(&self) -> OutputView {
        OutputView { status: self.status, stdout: self.stdout@, stderr: self.stderr@ }
    }
}

impl DeepView for Output {
    type V = OutputView;

    open spec fn deep_view(&self) -> OutputView {
        self@
    }
}

impl Output {
    pub fn ok(&self) -> (yes: bool)
        ensures
            yes == (self.status == 0),
    {
        self.status == 0
    }
}

/// Whether `out` is what the runner gives for a command.
pub open spec fn ran<R: Runner>(
    runner: &R,
    argv: Seq<Seq<char>>,
    timeout: u64,
    out: Result<Output>,
) -> bool {
    exists|args: &[&str]|
        args.deep_view() == argv && #[trigger] call_ensures(R::run, (runner, args, timeout), out)
}

fn run<R: Runner>(runner: &R, argv: &Vec<&str>, timeout: u64) -> (out: Result<Output>)
    ensures
        ran(runner, argv.deep_view(), timeout, out),
{
    let args = argv.as_slice();
    assert(args.deep_view() == argv.deep_view());
    runner.run(args, timeout)
}

/// What it means that a command could not be run: its program is missing, or
/// something else went wrong.
pub open spec fn not_run(argv: Seq<Seq<char>>, missing: bool, reason: Seq<char>) -> ErrorView {
    if argv.len() == 0 {
        ErrorView::Network("empty command"@)
    } else if missing {
        ErrorView::Network(argv[0] + " not found on PATH"@)
    } else {
        ErrorView::Network(text::joined(argv, " "@) + ": "@ + reason)
    }
}

/// Explain why a command could not be run.
pub fn could_not_run(argv: &[&str], missing: bool, reason: &str) -> (error: Error)
    ensures
        error@ == not_run(argv.deep_view(), missing, reason@),
{
    if argv.len() == 0 {
        return Error::Network("empty command".to_owned());
    }
    let mut detail;
    if missing {
        detail = argv[0].to_owned();
        detail.append(" not found on PATH");
    } else {
        detail = text::join(&words_of(argv), " ");
        detail.append(": ");
        detail.append(reason);
    }
    Error::Network(detail)
}

fn words_of(argv: &[&str]) -> (words: Vec<String>)
    ensures
        words.deep_view() == argv.deep_view(),
{
    let mut words: Vec<String> = Vec::new();
    let mut i: usize = 0;
    while i < argv.len()
        invariant
            i <= argv@.len(),
            words@.len() == i,
            forall|j: int| 0 <= j < i ==> (#[trigger] words@[j])@ == argv@[j]@,
        decreases argv@.len() - i,
    {
        words.push(argv[i].to_owned());
        i += 1;
    }
    assert(words.deep_view() =~= argv.deep_view());
    words
}

/// What a command said went wrong: what it wrote as errors, or else what it
/// wrote at all.
pub open spec fn complaint(out: OutputView) -> Seq<char> {
    if text::trimmed(out.stderr).len() == 0 {
        text::trimmed(out.stdout)
    } else {
        text::trimmed(out.stderr)
    }
}

/// What came of a command that has to succeed.
pub open spec fn verdict(argv: Seq<Seq<char>>, out: ResultView<OutputView>) -> ResultView<
    OutputView,
> {
    match out {
        Err(error) => Err(error),
        Ok(out) => if out.status == 0 {
            Ok(out)
        } else {
            Err(
                ErrorView::Network(
                    text::joined(argv, " "@) + " failed ("@ + text::signed_decimal(
                        out.status as int,
                    ) + "): "@ + complaint(out),
                ),
            )
        },
    }
}

/// Judge a command that has to succeed by what came of it.
pub fn judge(argv: &Vec<&str>, out: Result<Output>) -> (judged: Result<Output>)
    ensures
        error::seen(judged) == verdict(argv.deep_view(), error::seen(out)),
{
    match out {
        Err(error) => Err(error),
        Ok(out) => {
            if out.ok() {
                return Ok(out);
            }
            let mut detail = text::join(&words_of(argv.as_slice()), " ");
            detail.append(" failed (");
            detail.append(text::signed_text(out.status as i64).as_str());
            detail.append("): ");
            let said = text::trim(out.stderr.as_str());
            if said.as_str().unicode_len() == 0 {
                detail.append(text::trim(out.stdout.as_str()).as_str());
            } else {
                detail.append(said.as_str());
            }
            Err(Error::Network(detail))
        },
    }
}

/// Run a command that has to succeed.
pub fn checked<R: Runner>(runner: &R, argv: &Vec<&str>, timeout: u64) -> (judged: Result<Output>)
    ensures
        exists|out: Result<Output>| #[trigger]
            ran(runner, argv.deep_view(), timeout, out) && error::seen(judged) == verdict(
                argv.deep_view(),
                error::seen(out),
            ),
{
    let out = run(runner, argv, timeout);
    judge(argv, out)
}

/// A command to run, for up to so many milliseconds.
#[derive(Debug)]
pub struct Command {
    pub argv: Vec<String>,
    pub timeout: u64,
}

/// A command, mathematically.
#[verifier::ext_equal]
pub struct CommandView {
    pub argv: Seq<Seq<char>>,
    pub timeout: u64,
}

impl View for Command {
    type V = CommandView;

    open spec fn view(&self) -> CommandView {
        CommandView { argv: self.argv.deep_view(), timeout: self.timeout }
    }
}

impl DeepView for Command {
    type V = CommandView;

    open spec fn deep_view(&self) -> CommandView {
        self@
    }
}

impl Command {
    fn of(words: &Vec<&str>, timeout: u64) -> (command: Command)
        ensures
            command@ == (CommandView { argv: words.deep_view(), timeout }),
    {
        let slice = words.as_slice();
        assert(slice.deep_view() =~= words.deep_view());
        Command { argv: words_of(slice), timeout }
    }

    fn words(&self) -> (words: Vec<&str>)
        ensures
            words.deep_view() == self@.argv,
    {
        let mut words: Vec<&str> = Vec::new();
        let mut i: usize = 0;
        while i < self.argv.len()
            invariant
                i <= self.argv@.len(),
                words@.len() == i,
                forall|j: int| 0 <= j < i ==> (#[trigger] words@[j])@ == self.argv@[j]@,
            decreases self.argv@.len() - i,
        {
            words.push(self.argv[i].as_str());
            i += 1;
        }
        assert(words.deep_view() =~= self@.argv);
        words
    }

    fn run<R: Runner>(&self, runner: &R) -> (out: Result<Output>)
        ensures
            ran(runner, self@.argv, self@.timeout, out),
    {
        run(runner, &self.words(), self.timeout)
    }

    fn judge(&self, out: Result<Output>) -> (judged: Result<Output>)
        ensures
            error::seen(judged) == verdict(self@.argv, error::seen(out)),
    {
        judge(&self.words(), out)
    }
}

/// What a command comes to: where it is `strict` it has to succeed, and otherwise
/// it only has to be run.
pub open spec fn came_of(
    command: CommandView,
    strict: bool,
    out: ResultView<OutputView>,
) -> ResultView<()> {
    match if strict {
        verdict(command.argv, out)
    } else {
        out
    } {
        Ok(_) => Ok(()),
        Err(error) => Err(error),
    }
}

/// What commands come to with a runner that gives these outputs, one after the
/// other, up to the first failure; nothing where they are not the outputs it gives.
pub open spec fn in_order<R: Runner>(
    runner: &R,
    commands: Seq<CommandView>,
    strict: bool,
    outs: Seq<Result<Output>>,
) -> Option<ResultView<()>>
    decreases commands.len(),
{
    if commands.len() == 0 {
        if outs.len() == 0 {
            Some(Ok(()))
        } else {
            None
        }
    } else if outs.len() == 0 || !ran(runner, commands[0].argv, commands[0].timeout, outs[0]) {
        None
    } else {
        match came_of(commands[0], strict, error::seen(outs[0])) {
            Ok(_) => in_order(runner, commands.skip(1), strict, outs.skip(1)),
            Err(error) => if outs.len() == 1 {
                Some(Err(error))
            } else {
                None
            },
        }
    }
}

/// Run commands in order, from number `from` on, up to the first failure.
fn run_in_order<R: Runner>(
    runner: &R,
    commands: &Vec<Command>,
    strict: bool,
    from: usize,
) -> (result: Result<()>)
    requires
        from <= commands@.len(),
    ensures
        exists|outs: Seq<Result<Output>>| #[trigger]
            in_order(runner, commands.deep_view().skip(from as int), strict, outs) == Some(
                error::seen(result),
            ),
    decreases commands@.len() - from,
{
    let ghost left = commands.deep_view().skip(from as int);
    if from == commands.len() {
        assert(in_order(runner, left, strict, seq![]) == Some(Ok::<(), ErrorView>(())));
        return Ok(());
    }
    let command = &commands[from];
    let out = command.run(runner);
    let ghost first = out;
    assert(left[0] == command@);
    let judged = if strict {
        command.judge(out)
    } else {
        out
    };
    match judged {
        Ok(_) => {
            let result = run_in_order(runner, commands, strict, from + 1);
            proof {
                let rest = commands.deep_view().skip(from + 1);
                let later = choose|outs: Seq<Result<Output>>| #[trigger]
                    in_order(runner, rest, strict, outs) == Some(error::seen(result));
                let outs = seq![first] + later;
                assert(outs.skip(1) == later);
                assert(left.skip(1) == rest);
                assert(in_order(runner, left, strict, outs) == Some(error::seen(result)));
            }
            result
        },
        Err(error) => {
            let result = Err(error);
            assert(in_order(runner, left, strict, seq![first]) == Some(error::seen(result)));
            result
        },
    }
}

/// Minimal interface a host needs to implement to be a sync host.
pub trait WifiBackend {
    fn name(&self) -> &'static str;

    /// True when the backend cannot actually change networks and instead asks
    /// the operator to do it.
    fn interactive(&self) -> bool;

    /// Snapshot the active association so it can be restored later.
    fn current(&self) -> Result<WifiState>;

    /// Associate with `ssid`, blocking until the link is up.
    fn join(&self, ssid: &str, passphrase: &str, interface: Option<&str>) -> Result<()>;

    /// Undo [`WifiBackend::join`], returning to `state`.
    fn restore(&self, state: &WifiState) -> Result<()>;
}

// ---------------------------------------------------------------------------
// Linux / NetworkManager
// ---------------------------------------------------------------------------

/// The first Wi-Fi device of nmcli's list, from line number `from` on.
pub open spec fn nmcli_device(lines: Seq<Seq<char>>, from: nat) -> Option<Seq<char>>
    decreases lines.len() - from,
{
    if from >= lines.len() {
        None
    } else {
        let parts = text::pieces(lines[from as int], ':');
        if parts.len() >= 2 && parts[1] == "wifi"@ {
            Some(parts[0])
        } else {
            nmcli_device(lines, from + 1)
        }
    }
}

/// Find the Wi-Fi device in what nmcli lists.
pub fn parse_devices(stdout: &str) -> (device: Option<String>)
    ensures
        device.deep_view() == nmcli_device(text::lines(stdout@), 0),
{
    let lines = text::split_lines(stdout);
    let ghost views = text::lines(stdout@);
    let mut i: usize = 0;
    while i < lines.len()
        invariant
            i <= lines@.len(),
            views == lines.deep_view(),
            views == text::lines(stdout@),
            nmcli_device(views, 0) == nmcli_device(views, i as nat),
        decreases lines@.len() - i,
    {
        let parts = text::split(lines[i].as_str(), ':');
        let ghost pieces = parts.deep_view();
        assert(views[i as int] == lines@[i as int]@);
        if parts.len() >= 2 && text::same(parts[1].as_str(), "wifi") {
            assert(pieces[1] == parts@[1]@ && pieces[0] == parts@[0]@);
            return Some(parts[0].clone());
        }
        assert(pieces.len() >= 2 ==> pieces[1] == parts@[1]@);
        i += 1;
    }
    None
}

/// The active wireless connection of nmcli's list, from line number `from` on:
/// its name and its device.
pub open spec fn nmcli_connection(lines: Seq<Seq<char>>, from: nat) -> Option<
    (Seq<char>, Seq<char>),
>
    decreases lines.len() - from,
{
    if from >= lines.len() {
        None
    } else {
        let parts = text::pieces(lines[from as int], ':');
        if parts.len() >= 3 && parts[1] == "802-11-wireless"@ {
            Some((parts[0], parts[2]))
        } else {
            nmcli_connection(lines, from + 1)
        }
    }
}

/// What nmcli's list of active connections says of the host's association.
///
/// The wired profile is active too; picking it would restore the wrong link.
pub open spec fn nmcli_association(interface: Option<Seq<char>>, stdout: Seq<char>) -> WifiStateView {
    match nmcli_connection(text::lines(stdout), 0) {
        Some((name, device)) => WifiStateView {
            interface: if device.len() > 0 {
                Some(device)
            } else {
                interface
            },
            ssid: Some(name),
            profile: Some(name),
        },
        None => WifiStateView { interface, ssid: None, profile: None },
    }
}

/// Read the host's association off nmcli's list of active connections.
pub fn parse_active(interface: Option<String>, stdout: &str) -> (state: WifiState)
    ensures
        state@ == nmcli_association(interface.deep_view(), stdout@),
{
    let lines = text::split_lines(stdout);
    let ghost views = text::lines(stdout@);
    let mut i: usize = 0;
    while i < lines.len()
        invariant
            i <= lines@.len(),
            views == lines.deep_view(),
            views == text::lines(stdout@),
            nmcli_connection(views, 0) == nmcli_connection(views, i as nat),
        decreases lines@.len() - i,
    {
        let parts = text::split(lines[i].as_str(), ':');
        let ghost pieces = parts.deep_view();
        assert(views[i as int] == lines@[i as int]@);
        assert(forall|j: int| 0 <= j < pieces.len() ==> #[trigger] pieces[j] == parts@[j]@);
        if parts.len() >= 3 && text::same(parts[1].as_str(), "802-11-wireless") {
            let device = parts[2].clone();
            let interface = if device.as_str().unicode_len() > 0 {
                Some(device)
            } else {
                interface
            };
            return WifiState {
                interface,
                ssid: Some(parts[0].clone()),
                profile: Some(parts[0].clone()),
            };
        }
        i += 1;
    }
    WifiState { interface, ssid: None, profile: None }
}

pub open spec fn nmcli_devices_argv() -> Seq<Seq<char>> {
    seq!["nmcli"@, "-t"@, "-f"@, "DEVICE,TYPE,STATE"@, "device"@]
}

pub open spec fn nmcli_active_argv() -> Seq<Seq<char>> {
    seq!["nmcli"@, "-t"@, "-f"@, "NAME,TYPE,DEVICE"@, "connection"@, "show"@, "--active"@]
}

pub open spec fn nmcli_rescan_argv(device: Seq<char>) -> Seq<Seq<char>> {
    seq!["nmcli"@, "device"@, "wifi"@, "rescan"@, "ifname"@, device]
}

pub open spec fn nmcli_connect_argv(
    ssid: Seq<char>,
    passphrase: Seq<char>,
    device: Seq<char>,
) -> Seq<Seq<char>> {
    seq![
        "nmcli"@,
        "device"@,
        "wifi"@,
        "connect"@,
        ssid,
        "password"@,
        passphrase,
        "ifname"@,
        device,
    ]
}

pub open spec fn nmcli_up_argv(profile: Seq<char>, interface: Option<Seq<char>>) -> Seq<Seq<char>> {
    let up = seq!["nmcli"@, "connection"@, "up"@, profile];
    match interface {
        Some(interface) => up + seq!["ifname"@, interface],
        None => up,
    }
}

/// What a list of devices says, or why there is none.
pub open spec fn nmcli_device_reply(out: ResultView<OutputView>) -> ResultView<Option<Seq<char>>> {
    match out {
        Ok(out) => Ok(nmcli_device(text::lines(out.stdout), 0)),
        Err(error) => Err(error),
    }
}

/// Joining a network with nmcli, told apart by the command that is run.
///
/// A rescan makes the freshly-raised camera AP visible. Advisory only: it commonly
/// fails when a scan is already in flight.
#[derive(Debug)]
pub enum NmcliJoin {
    Devices,
    Rescan { device: String },
    Connect { device: String },
}

#[verifier::ext_equal]
pub enum NmcliJoinView {
    Devices,
    Rescan { device: Seq<char> },
    Connect { device: Seq<char> },
}

impl View for NmcliJoin {
    type V = NmcliJoinView;

    open spec fn view(&self) -> NmcliJoinView {
        match *self {
            NmcliJoin::Devices => NmcliJoinView::Devices,
            NmcliJoin::Rescan { device } => NmcliJoinView::Rescan { device: device@ },
            NmcliJoin::Connect { device } => NmcliJoinView::Connect { device: device@ },
        }
    }
}

impl DeepView for NmcliJoin {
    type V = NmcliJoinView;

    open spec fn deep_view(&self) -> NmcliJoinView {
        self@
    }
}

/// Where joining begins: the device is looked for where none is given.
pub open spec fn nmcli_join_start(interface: Option<Seq<char>>) -> NmcliJoinView {
    match interface {
        Some(device) => NmcliJoinView::Rescan { device },
        None => NmcliJoinView::Devices,
    }
}

/// The command that each state of joining runs.
pub open spec fn nmcli_join_command(
    state: NmcliJoinView,
    ssid: Seq<char>,
    passphrase: Seq<char>,
) -> CommandView {
    match state {
        NmcliJoinView::Devices => CommandView { argv: nmcli_devices_argv(), timeout: 10000 },
        NmcliJoinView::Rescan { device } => CommandView {
            argv: nmcli_rescan_argv(device),
            timeout: 20000,
        },
        NmcliJoinView::Connect { device } => CommandView {
            argv: nmcli_connect_argv(ssid, passphrase, device),
            timeout: 60000,
        },
    }
}

/// How joining goes on: after the rescan, whatever comes of it, the connection,
/// which has to succeed.
pub open spec fn nmcli_join_next(
    state: NmcliJoinView,
    ssid: Seq<char>,
    passphrase: Seq<char>,
    out: ResultView<OutputView>,
) -> StepView<NmcliJoinView, ()> {
    match state {
        NmcliJoinView::Devices => match nmcli_device_reply(out) {
            Err(error) => StepView::Done(Err(error)),
            Ok(None) => StepView::Done(
                Err(ErrorView::Network("no Wi-Fi device reported by nmcli"@)),
            ),
            Ok(Some(device)) => StepView::More(NmcliJoinView::Rescan { device }),
        },
        NmcliJoinView::Rescan { device } => StepView::More(NmcliJoinView::Connect { device }),
        NmcliJoinView::Connect { device } => StepView::Done(
            match verdict(nmcli_connect_argv(ssid, passphrase, device), out) {
                Ok(_) => Ok(()),
                Err(error) => Err(error),
            },
        ),
    }
}

/// How far joining is from its end.
pub open spec fn nmcli_join_rank(state: NmcliJoinView) -> nat {
    match state {
        NmcliJoinView::Devices => 3,
        NmcliJoinView::Rescan { .. } => 2,
        NmcliJoinView::Connect { .. } => 1,
    }
}

impl NmcliJoin {
    /// Set out to join a network.
    pub fn start(interface: Option<&str>) -> (state: NmcliJoin)
        ensures
            state@ == nmcli_join_start(interface.deep_view()),
    {
        match interface {
            Some(device) => NmcliJoin::Rescan { device: device.to_owned() },
            None => NmcliJoin::Devices,
        }
    }

    /// The command to run.
    pub fn command(&self, ssid: &str, passphrase: &str) -> (command: Command)
        ensures
            command@ == nmcli_join_command(self@, ssid@, passphrase@),
    {
        match self {
            NmcliJoin::Devices => {
                let words: Vec<&str> = vec!["nmcli", "-t", "-f", "DEVICE,TYPE,STATE", "device"];
                assert(words.deep_view() == nmcli_devices_argv());
                Command::of(&words, 10000)
            },
            NmcliJoin::Rescan { device } => {
                let words: Vec<&str> = vec![
                    "nmcli",
                    "device",
                    "wifi",
                    "rescan",
                    "ifname",
                    device.as_str(),
                ];
                assert(words.deep_view() == nmcli_rescan_argv(device@));
                Command::of(&words, 20000)
            },
            NmcliJoin::Connect { device } => {
                let words: Vec<&str> = vec![
                    "nmcli",
                    "device",
                    "wifi",
                    "connect",
                    ssid,
                    "password",
                    passphrase,
                    "ifname",
                    device.as_str(),
                ];
                assert(words.deep_view() == nmcli_connect_argv(ssid@, passphrase@, device@));
                Command::of(&words, 60000)
            },
        }
    }

    /// Go on from what came of it.
    pub fn next(self, ssid: &str, passphrase: &str, out: Result<Output>) -> (step: Step<
        NmcliJoin,
        (),
    >)
        ensures
            step@ == nmcli_join_next(self@, ssid@, passphrase@, error::seen(out)),
            step@ matches StepView::More(next) ==> nmcli_join_rank(next) < nmcli_join_rank(self@),
    {
        let command = self.command(ssid, passphrase);
        match self {
            NmcliJoin::Devices => match out {
                Err(error) => Step::Done(Err(error)),
                Ok(out) => match parse_devices(out.stdout.as_str()) {
                    Some(device) => Step::More(NmcliJoin::Rescan { device }),
                    None => Step::Done(
                        Err(Error::Network("no Wi-Fi device reported by nmcli".to_owned())),
                    ),
                },
            },
            NmcliJoin::Rescan { device } => Step::More(NmcliJoin::Connect { device }),
            NmcliJoin::Connect { .. } => match command.judge(out) {
                Ok(_) => Step::Done(Ok(())),
                Err(error) => Step::Done(Err(error)),
            },
        }
    }
}

/// What joining comes to with a runner that gives these outputs, one after the
/// other; nothing where they are not the outputs it gives.
pub open spec fn nmcli_join_result<R: Runner>(
    runner: &R,
    ssid: Seq<char>,
    passphrase: Seq<char>,
    state: NmcliJoinView,
    outs: Seq<Result<Output>>,
) -> Option<ResultView<()>>
    decreases outs.len(),
{
    let command = nmcli_join_command(state, ssid, passphrase);
    if outs.len() == 0 || !ran(runner, command.argv, command.timeout, outs[0]) {
        None
    } else {
        match nmcli_join_next(state, ssid, passphrase, error::seen(outs[0])) {
            StepView::More(next) => nmcli_join_result(runner, ssid, passphrase, next, outs.skip(1)),
            StepView::Done(result) => if outs.len() == 1 {
                Some(result)
            } else {
                None
            },
        }
    }
}

/// The commands that joining runs where they leave these outputs behind, in order.
pub open spec fn nmcli_join_commands(
    ssid: Seq<char>,
    passphrase: Seq<char>,
    state: NmcliJoinView,
    outs: Seq<ResultView<OutputView>>,
) -> Seq<CommandView>
    decreases outs.len(),
{
    if outs.len() == 0 {
        seq![]
    } else {
        seq![nmcli_join_command(state, ssid, passphrase)] + match nmcli_join_next(
            state,
            ssid,
            passphrase,
            outs[0],
        ) {
            StepView::More(next) => nmcli_join_commands(ssid, passphrase, next, outs.skip(1)),
            StepView::Done(_) => seq![],
        }
    }
}

fn drive_nmcli_join<R: Runner>(
    runner: &R,
    ssid: &str,
    passphrase: &str,
    state: NmcliJoin,
) -> (result: Result<()>)
    ensures
        exists|outs: Seq<Result<Output>>| #[trigger]
            nmcli_join_result(runner, ssid@, passphrase@, state@, outs) == Some(
                error::seen(result),
            ),
    decreases nmcli_join_rank(state@),
{
    let out = state.command(ssid, passphrase).run(runner);
    let ghost first = out;
    match state.next(ssid, passphrase, out) {
        Step::More(next) => {
            let ghost after = next@;
            let result = drive_nmcli_join(runner, ssid, passphrase, next);
            proof {
                let later = choose|outs: Seq<Result<Output>>| #[trigger]
                    nmcli_join_result(runner, ssid@, passphrase@, after, outs) == Some(
                        error::seen(result),
                    );
                let outs = seq![first] + later;
                assert(outs.skip(1) == later);
                assert(nmcli_join_result(runner, ssid@, passphrase@, state@, outs) == Some(
                    error::seen(result),
                ));
            }
            result
        },
        Step::Done(result) => {
            assert(nmcli_join_result(runner, ssid@, passphrase@, state@, seq![first]) == Some(
                error::seen(result),
            ));
            result
        },
    }
}

/// The commands that put the host back with nmcli, in order: none where no profile
/// is known, and otherwise one that brings it up again.
pub open spec fn nmcli_restore_commands(state: WifiStateView) -> Seq<CommandView> {
    match state.profile {
        Some(profile) => seq![
            CommandView { argv: nmcli_up_argv(profile, state.interface), timeout: 60000 },
        ],
        None => seq![],
    }
}

/// The commands that put the host back with nmcli, in order.
pub fn nmcli_restoring(state: &WifiState) -> (commands: Vec<Command>)
    ensures
        commands.deep_view() == nmcli_restore_commands(state@),
{
    let mut commands: Vec<Command> = Vec::new();
    match &state.profile {
        Some(profile) => {
            let mut words: Vec<&str> = vec!["nmcli", "connection", "up", profile.as_str()];
            match &state.interface {
                Some(interface) => {
                    words.push("ifname");
                    words.push(interface.as_str());
                },
                None => {},
            }
            assert(words.deep_view() == nmcli_up_argv(profile@, state@.interface));
            commands.push(Command::of(&words, 60000));
        },
        None => {},
    }
    assert(commands.deep_view() =~= nmcli_restore_commands(state@));
    commands
}

pub struct Nmcli<R: Runner> {
    runner: R,
}

impl<R: Runner> Nmcli<R> {
    pub closed spec fn commands(&self) -> &R {
        &self.runner
    }

    pub fn new(runner: R) -> (backend: Self)
        ensures
            backend.commands() == runner,
    {
        Nmcli { runner }
    }

    fn runner(&self) -> (runner: &R)
        ensures
            runner == self.commands(),
    {
        &self.runner
    }

    /// Whether nmcli can be used: on Linux, where it is on the path and reports
    /// a Wi-Fi device.
    pub fn available(runner: &R, host: &Host) -> (yes: bool)
        ensures
            nmcli_usable(runner, *host, yes),
    {
        if host.linux && host.nmcli_on_path {
            match Self::wifi_device(runner) {
                Ok(device) => device.is_some(),
                Err(_) => false,
            }
        } else {
            false
        }
    }

    fn wifi_device(runner: &R) -> (device: Result<Option<String>>)
        ensures
            exists|out: Result<Output>| #[trigger]
                ran(runner, nmcli_devices_argv(), 10000, out) && error::seen(device)
                    == nmcli_device_reply(error::seen(out)),
    {
        let argv: Vec<&str> = vec!["nmcli", "-t", "-f", "DEVICE,TYPE,STATE", "device"];
        assert(argv.deep_view() == nmcli_devices_argv());
        match run(runner, &argv, 10000) {
            Ok(out) => Ok(parse_devices(out.stdout.as_str())),
            Err(error) => Err(error),
        }
    }
}

impl<R: Runner> WifiBackend for Nmcli<R> {
    fn name(&self) -> (name: &'static str)
        ensures
            name@ == "nmcli"@,
    {
        "nmcli"
    }

    fn interactive(&self) -> (yes: bool)
        ensures
            !yes,
    {
        false
    }

    fn current(&self) -> (state: Result<WifiState>)
        ensures
            exists|devices: Result<Output>| #[trigger]
                ran(self.commands(), nmcli_devices_argv(), 10000, devices)
                    && match nmcli_device_reply(error::seen(devices)) {
                    Err(error) => error::seen(state) == Err::<WifiStateView, ErrorView>(error),
                    Ok(interface) => exists|active: Result<Output>| #[trigger]
                        ran(self.commands(), nmcli_active_argv(), 10000, active) && error::seen(
                            state,
                        ) == match error::seen(active) {
                            Ok(out) => Ok(nmcli_association(interface, out.stdout)),
                            Err(error) => Err(error),
                        },
                },
    {
        match Self::wifi_device(self.runner()) {
            Err(error) => Err(error),
            Ok(interface) => {
                let argv: Vec<&str> = vec![
                    "nmcli",
                    "-t",
                    "-f",
                    "NAME,TYPE,DEVICE",
                    "connection",
                    "show",
                    "--active",
                ];
                assert(argv.deep_view() == nmcli_active_argv());
                match run(self.runner(), &argv, 10000) {
                    Ok(out) => Ok(parse_active(interface, out.stdout.as_str())),
                    Err(error) => Err(error),
                }
            },
        }
    }

    /// The commands are those of [`NmcliJoin`], in its order.
    fn join(&self, ssid: &str, passphrase: &str, interface: Option<&str>) -> (result: Result<()>)
        ensures
            exists|outs: Seq<Result<Output>>| #[trigger]
                nmcli_join_result(
                    self.commands(),
                    ssid@,
                    passphrase@,
                    nmcli_join_start(interface.deep_view()),
                    outs,
                ) == Some(error::seen(result)),
    {
        drive_nmcli_join(self.runner(), ssid, passphrase, NmcliJoin::start(interface))
    }

    /// The commands are those of [`nmcli_restoring`], in its order.
    fn restore(&self, state: &WifiState) -> (result: Result<()>)
        ensures
            exists|outs: Seq<Result<Output>>| #[trigger]
                in_order(self.commands(), nmcli_restore_commands(state@), true, outs) == Some(
                    error::seen(result),
                ),
            state@.profile is None ==> error::seen(result) == Ok::<(), ErrorView>(()),
    {
        let commands = nmcli_restoring(state);
        assert(commands.deep_view().skip(0) =~= nmcli_restore_commands(state@));
        run_in_order(self.runner(), &commands, true, 0)
    }
}

// ---------------------------------------------------------------------------
// macOS
// ---------------------------------------------------------------------------

pub const NETWORKSETUP: &'static str = "/usr/sbin/networksetup";

/// The device of the first Wi-Fi block of networksetup's list of ports, from
/// line number `from` on. `wifi_block` says whether that line is in such a
/// block.
pub open spec fn port_device(lines: Seq<Seq<char>>, from: nat, wifi_block: bool) -> Option<
    Seq<char>,
>
    decreases lines.len() - from,
{
    if from >= lines.len() {
        None
    } else {
        let line = text::trimmed(lines[from as int]);
        match text::after_prefix(line, "Hardware Port:"@) {
            Some(port) => {
                let port = text::trimmed(port);
                port_device(lines, from + 1, port == "Wi-Fi"@ || port == "AirPort"@)
            },
            None => match text::after_prefix(line, "Device:"@) {
                Some(device) => if wifi_block {
                    Some(text::trimmed(device))
                } else {
                    port_device(lines, from + 1, wifi_block)
                },
                None => port_device(lines, from + 1, wifi_block),
            },
        }
    }
}

/// Pull the Wi-Fi device out of `networksetup -listallhardwareports`, skipping
/// the Ethernet block that precedes it on most machines.
pub fn parse_hardware_ports(stdout: &str) -> (device: Option<String>)
    ensures
        device.deep_view() == port_device(text::lines(stdout@), 0, false),
{
    let lines = text::split_lines(stdout);
    let ghost views = text::lines(stdout@);
    let mut wifi_block = false;
    let mut i: usize = 0;
    while i < lines.len()
        invariant
            i <= lines@.len(),
            views == lines.deep_view(),
            views == text::lines(stdout@),
            port_device(views, 0, false) == port_device(views, i as nat, wifi_block),
        decreases lines@.len() - i,
    {
        assert(views[i as int] == lines@[i as int]@);
        let line = text::trim(lines[i].as_str());
        match text::strip(line.as_str(), "Hardware Port:") {
            Some(port) => {
                let port = text::trim(port.as_str());
                wifi_block =
                text::same(port.as_str(), "Wi-Fi") || text::same(port.as_str(), "AirPort");
            },
            None => {
                if wifi_block {
                    match text::strip(line.as_str(), "Device:") {
                        Some(device) => {
                            return Some(text::trim(device.as_str()));
                        },
                        None => {},
                    }
                }
            },
        }
        i += 1;
    }
    None
}

/// The network that one line names, where it names one.
pub open spec fn network_in_line(line: Seq<char>) -> Option<Seq<char>> {
    let line = text::trimmed(line);
    let named = match text::after_prefix(line, "Current Wi-Fi Network:"@) {
        Some(name) => Some(name),
        None => text::after_prefix(line, "Current WiFi Network:"@),
    };
    match named {
        Some(name) => if text::trimmed(name).len() > 0 {
            Some(text::trimmed(name))
        } else {
            None
        },
        None => None,
    }
}

/// The first network that is named, from line number `from` on.
pub open spec fn network_named(lines: Seq<Seq<char>>, from: nat) -> Option<Seq<char>>
    decreases lines.len() - from,
{
    if from >= lines.len() {
        None
    } else if network_in_line(lines[from as int]) is Some {
        network_in_line(lines[from as int])
    } else {
        network_named(lines, from + 1)
    }
}

/// Read the network off `networksetup -getairportnetwork`. Not associated, macOS
/// says so in prose, and an SSID must not be invented from it.
pub fn parse_current_network(stdout: &str) -> (ssid: Option<String>)
    ensures
        ssid.deep_view() == network_named(text::lines(stdout@), 0),
{
    let lines = text::split_lines(stdout);
    let ghost views = text::lines(stdout@);
    let mut i: usize = 0;
    while i < lines.len()
        invariant
            i <= lines@.len(),
            views == lines.deep_view(),
            views == text::lines(stdout@),
            network_named(views, 0) == network_named(views, i as nat),
        decreases lines@.len() - i,
    {
        assert(views[i as int] == lines@[i as int]@);
        let line = text::trim(lines[i].as_str());
        let named = match text::strip(line.as_str(), "Current Wi-Fi Network:") {
            Some(name) => Some(name),
            None => text::strip(line.as_str(), "Current WiFi Network:"),
        };
        match named {
            Some(name) => {
                let name = text::trim(name.as_str());
                if name.as_str().unicode_len() > 0 {
                    return Some(name);
                }
            },
            None => {},
        }
        i += 1;
    }
    None
}

pub open spec fn ports_argv() -> Seq<Seq<char>> {
    seq!["/usr/sbin/networksetup"@, "-listallhardwareports"@]
}

pub open spec fn airport_argv(device: Seq<char>) -> Seq<Seq<char>> {
    seq!["/usr/sbin/networksetup"@, "-getairportnetwork"@, device]
}

pub open spec fn set_airport_argv(
    device: Seq<char>,
    ssid: Seq<char>,
    passphrase: Option<Seq<char>>,
) -> Seq<Seq<char>> {
    let set = seq!["/usr/sbin/networksetup"@, "-setairportnetwork"@, device, ssid];
    match passphrase {
        Some(passphrase) => set.push(passphrase),
        None => set,
    }
}

/// What a list of ports says, or why there is none.
pub open spec fn port_reply(out: ResultView<OutputView>) -> ResultView<Option<Seq<char>>> {
    match out {
        Ok(out) => Ok(port_device(text::lines(out.stdout), 0, false)),
        Err(error) => Err(error),
    }
}

/// What asking for the network of a device says of the host's association.
pub open spec fn airport_association(device: Seq<char>, stdout: Seq<char>) -> WifiStateView {
    let ssid = network_named(text::lines(stdout), 0);
    WifiStateView { interface: Some(device), ssid, profile: ssid }
}

/// What the association of a device is: what asking for its network says.
pub open spec fn airport_reports<R: Runner>(
    runner: &R,
    device: Seq<char>,
    state: ResultView<WifiStateView>,
) -> bool {
    exists|out: Result<Output>| #[trigger]
        ran(runner, airport_argv(device), 10000, out) && state == match error::seen(out) {
            Ok(out) => Ok(airport_association(device, out.stdout)),
            Err(error) => Err(error),
        }
}

/// What joining comes to once the device is known.
pub open spec fn airport_joins<R: Runner>(
    runner: &R,
    device: Seq<char>,
    ssid: Seq<char>,
    passphrase: Seq<char>,
    result: ResultView<()>,
) -> bool {
    exists|out: Result<Output>| #[trigger]
        ran(runner, set_airport_argv(device, ssid, Some(passphrase)), 60000, out) && result
            == match verdict(
            set_airport_argv(device, ssid, Some(passphrase)),
            error::seen(out),
        ) {
            Ok(_) => Ok::<(), ErrorView>(()),
            Err(error) => Err(error),
        }
}

/// The commands that put the host back with networksetup, in order: none where the
/// device or the network is not known, and otherwise one.
///
/// No passphrase: the previous network is already in the keychain as a preferred
/// network, which is how it came to be associated at all.
pub open spec fn airport_restore_commands(state: WifiStateView) -> Seq<CommandView> {
    match (state.interface, state.ssid) {
        (Some(device), Some(ssid)) => seq![
            CommandView { argv: set_airport_argv(device, ssid, None), timeout: 60000 },
        ],
        _ => seq![],
    }
}

/// The commands that put the host back with networksetup, in order.
pub fn airport_restoring(state: &WifiState) -> (commands: Vec<Command>)
    ensures
        commands.deep_view() == airport_restore_commands(state@),
{
    let mut commands: Vec<Command> = Vec::new();
    match (&state.interface, &state.ssid) {
        (Some(interface), Some(ssid)) => {
            let words: Vec<&str> = vec![
                NETWORKSETUP,
                "-setairportnetwork",
                interface.as_str(),
                ssid.as_str(),
            ];
            assert(words.deep_view() == set_airport_argv(interface@, ssid@, None));
            commands.push(Command::of(&words, 60000));
        },
        _ => {},
    }
    assert(commands.deep_view() =~= airport_restore_commands(state@));
    commands
}

pub struct Networksetup<R: Runner> {
    runner: R,
}

impl<R: Runner> Networksetup<R> {
    pub closed spec fn commands(&self) -> &R {
        &self.runner
    }

    pub fn new(runner: R) -> (backend: Self)
        ensures
            backend.commands() == runner,
    {
        Networksetup { runner }
    }

    fn runner(&self) -> (runner: &R)
        ensures
            runner == self.commands(),
    {
        &self.runner
    }

    /// Whether networksetup can be used: on macOS, where it exists.
    pub fn available(host: &Host) -> (yes: bool)
        ensures
            yes == (host.macos && host.networksetup_exists),
    {
        host.macos && host.networksetup_exists
    }

    fn wifi_device(runner: &R) -> (device: Result<Option<String>>)
        ensures
            exists|out: Result<Output>| #[trigger]
                ran(runner, ports_argv(), 10000, out) && error::seen(device) == port_reply(
                    error::seen(out),
                ),
    {
        let argv: Vec<&str> = vec![NETWORKSETUP, "-listallhardwareports"];
        assert(argv.deep_view() == ports_argv());
        match run(runner, &argv, 10000) {
            Ok(out) => Ok(parse_hardware_ports(out.stdout.as_str())),
            Err(error) => Err(error),
        }
    }

    fn associate(&self, device: &str, ssid: &str, passphrase: &str) -> (result: Result<()>)
        ensures
            airport_joins(self.commands(), device@, ssid@, passphrase@, error::seen(result)),
    {
        let argv: Vec<&str> = vec![NETWORKSETUP, "-setairportnetwork", device, ssid, passphrase];
        assert(argv.deep_view() == set_airport_argv(device@, ssid@, Some(passphrase@)));
        match checked(self.runner(), &argv, 60000) {
            Ok(_) => Ok(()),
            Err(error) => Err(error),
        }
    }

    fn association(&self, device: String) -> (state: Result<WifiState>)
        ensures
            airport_reports(self.commands(), device@, error::seen(state)),
    {
        let argv: Vec<&str> = vec![NETWORKSETUP, "-getairportnetwork", device.as_str()];
        assert(argv.deep_view() == airport_argv(device@));
        match run(self.runner(), &argv, 10000) {
            Ok(out) => {
                let ssid = parse_current_network(out.stdout.as_str());
                Ok(WifiState { profile: ssid.clone(), interface: Some(device), ssid })
            },
            Err(error) => Err(error),
        }
    }
}

impl<R: Runner> WifiBackend for Networksetup<R> {
    fn name(&self) -> (name: &'static str)
        ensures
            name@ == "networksetup"@,
    {
        "networksetup"
    }

    fn interactive(&self) -> (yes: bool)
        ensures
            !yes,
    {
        false
    }

    fn current(&self) -> (state: Result<WifiState>)
        ensures
            exists|ports: Result<Output>| #[trigger]
                ran(self.commands(), ports_argv(), 10000, ports) && match port_reply(
                    error::seen(ports),
                ) {
                    Err(error) => error::seen(state) == Err::<WifiStateView, ErrorView>(error),
                    Ok(None) => error::seen(state) == Ok::<WifiStateView, ErrorView>(
                        no_association(),
                    ),
                    Ok(Some(device)) => airport_reports(
                        self.commands(),
                        device,
                        error::seen(state),
                    ),
                },
    {
        match Self::wifi_device(self.runner()) {
            Err(error) => Err(error),
            Ok(None) => Ok(WifiState::default()),
            Ok(Some(device)) => self.association(device),
        }
    }

    fn join(&self, ssid: &str, passphrase: &str, interface: Option<&str>) -> (result: Result<()>)
        ensures
            match interface {
                Some(device) => airport_joins(
                    self.commands(),
                    device@,
                    ssid@,
                    passphrase@,
                    error::seen(result),
                ),
                None => exists|ports: Result<Output>| #[trigger]
                    ran(self.commands(), ports_argv(), 10000, ports) && match port_reply(
                        error::seen(ports),
                    ) {
                        Err(error) => error::seen(result) == Err::<(), ErrorView>(error),
                        Ok(None) => error::seen(result) == Err::<(), ErrorView>(
                            ErrorView::Network("no Wi-Fi hardware port reported by networksetup"@),
                        ),
                        Ok(Some(device)) => airport_joins(
                            self.commands(),
                            device,
                            ssid@,
                            passphrase@,
                            error::seen(result),
                        ),
                    },
            },
    {
        match interface {
            Some(device) => self.associate(device, ssid, passphrase),
            None => match Self::wifi_device(self.runner()) {
                Err(error) => Err(error),
                Ok(None) => Err(
                    Error::Network("no Wi-Fi hardware port reported by networksetup".to_owned()),
                ),
                Ok(Some(device)) => self.associate(device.as_str(), ssid, passphrase),
            },
        }
    }

    /// The commands are those of [`airport_restoring`], in its order. Only one that
    /// could not be run is an error.
    fn restore(&self, state: &WifiState) -> (result: Result<()>)
        ensures
            exists|outs: Seq<Result<Output>>| #[trigger]
                in_order(self.commands(), airport_restore_commands(state@), false, outs) == Some(
                    error::seen(result),
                ),
            (state@.interface is None || state@.ssid is None) ==> error::seen(result) == Ok::<
                (),
                ErrorView,
            >(()),
    {
        let commands = airport_restoring(state);
        assert(commands.deep_view().skip(0) =~= airport_restore_commands(state@));
        run_in_order(self.runner(), &commands, false, 0)
    }
}

// ---------------------------------------------------------------------------
// Manual fallback
// ---------------------------------------------------------------------------

/// Print the credentials and let the operator switch networks.
///
/// This exists so gr3sync degrades to something usable, rather than nothing,
/// on hosts whose Wi-Fi stack it does not know, or where the user would rather
/// no script rewrote their network state.
pub struct Manual;

impl Manual {
    pub fn name(&self) -> (name: &'static str)
        ensures
            name@ == "manual"@,
    {
        "manual"
    }

    pub fn interactive(&self) -> (yes: bool)
        ensures
            yes,
    {
        true
    }

    pub fn current(&self) -> (state: WifiState)
        ensures
            state@ == no_association(),
    {
        WifiState::default()
    }

    /// What to tell the operator before waiting for them.
    pub fn join_prompt(&self, ssid: &str, passphrase: &str) -> (prompt: String)
        ensures
            prompt@ == "\n  Join this Wi-Fi network on the host, then press Enter:\n    SSID: "@
                + ssid@ + "\n    Pass: "@ + passphrase@ + "\n\n  [Enter] when connected: "@,
    {
        let mut prompt =
            "\n  Join this Wi-Fi network on the host, then press Enter:\n    SSID: ".to_owned();
        prompt.append(ssid);
        prompt.append("\n    Pass: ");
        prompt.append(passphrase);
        prompt.append("\n\n  [Enter] when connected: ");
        prompt
    }

    /// What to tell the operator afterwards.
    pub fn restore_notice(&self) -> (notice: &'static str)
        ensures
            notice@
                == "\n  Sync finished — you can switch back to your usual Wi-Fi network.\n"@,
    {
        "\n  Sync finished — you can switch back to your usual Wi-Fi network.\n"
    }
}

// ---------------------------------------------------------------------------
// Selection
// ---------------------------------------------------------------------------

/// What is known of the host without running a command.
#[derive(Debug, Clone, Copy, PartialEq, Eq, Structural)]
pub struct Host {
    pub linux: bool,
    pub nmcli_on_path: bool,
    pub macos: bool,
    pub networksetup_exists: bool,
}

/// Whether `yes` can be the answer to whether nmcli is usable on a host.
pub open spec fn nmcli_usable<R: Runner>(runner: &R, host: Host, yes: bool) -> bool {
    if host.linux && host.nmcli_on_path {
        exists|out: Result<Output>| #[trigger]
            ran(runner, nmcli_devices_argv(), 10000, out) && yes == (nmcli_device_reply(
                error::seen(out),
            ) matches Ok(Some(_)))
    } else {
        !yes
    }
}

/// A way of changing the host's network. An automatic one is always preferred
/// over asking the user to do it.
#[derive(Debug, Clone, Copy, PartialEq, Eq, Structural)]
pub enum Backend {
    Nmcli,
    Networksetup,
    Manual,
}

impl DeepView for Backend {
    type V = Backend;

    open spec fn deep_view(&self) -> Backend {
        *self
    }
}

impl Backend {
    pub open spec fn label(self) -> Seq<char> {
        match self {
            Backend::Nmcli => "nmcli"@,
            Backend::Networksetup => "networksetup"@,
            Backend::Manual => "manual"@,
        }
    }

    pub fn name(self) -> (name: &'static str)
        ensures
            name@ == self.label(),
    {
        match self {
            Backend::Nmcli => "nmcli",
            Backend::Networksetup => "networksetup",
            Backend::Manual => "manual",
        }
    }
}

/// Backends in preference order. `Manual` must stay last.
pub fn backends() -> (all: Vec<Backend>)
    ensures
        all@ == seq![Backend::Nmcli, Backend::Networksetup, Backend::Manual],
{
    vec![Backend::Nmcli, Backend::Networksetup, Backend::Manual]
}

/// Which backend a name means.
pub open spec fn backend_of(name: Seq<char>) -> Option<Backend> {
    if name == "nmcli"@ {
        Some(Backend::Nmcli)
    } else if name == "networksetup"@ {
        Some(Backend::Networksetup)
    } else if name == "manual"@ {
        Some(Backend::Manual)
    } else {
        None
    }
}

pub fn backend_named(name: &str) -> (backend: Option<Backend>)
    ensures
        backend == backend_of(name@),
{
    if text::same(name, "nmcli") {
        Some(Backend::Nmcli)
    } else if text::same(name, "networksetup") {
        Some(Backend::Networksetup)
    } else if text::same(name, "manual") {
        Some(Backend::Manual)
    } else {
        None
    }
}

/// Whether `yes` can be the answer to whether a backend works on a host.
pub open spec fn usable<R: Runner>(
    name: Seq<char>,
    runner: &R,
    host: Host,
    yes: bool,
) -> bool {
    match backend_of(name) {
        Some(Backend::Nmcli) => nmcli_usable(runner, host, yes),
        Some(Backend::Networksetup) => yes == (host.macos && host.networksetup_exists),
        Some(Backend::Manual) => yes,
        None => !yes,
    }
}

/// Whether a backend works on this host.
pub fn backend_available<R: Runner>(name: &str, runner: &R, host: &Host) -> (yes: bool)
    ensures
        usable(name@, runner, *host, yes),
{
    match backend_named(name) {
        Some(Backend::Nmcli) => Nmcli::available(runner, host),
        Some(Backend::Networksetup) => Networksetup::<R>::available(host),
        Some(Backend::Manual) => true,
        None => false,
    }
}

/// The backend that is used: the one named, or else the first that works.
pub open spec fn chosen_backend(name: Option<Seq<char>>, nmcli: bool, networksetup: bool) -> ResultView<
    Backend,
> {
    match name {
        Some(name) => match backend_of(name) {
            Some(backend) => Ok(backend),
            None => Err(
                ErrorView::Network(
                    "unknown Wi-Fi backend "@ + text::quoted_form(name)
                        + "; known: [\"nmcli\", \"networksetup\", \"manual\"]"@,
                ),
            ),
        },
        None => Ok(
            if nmcli {
                Backend::Nmcli
            } else if networksetup {
                Backend::Networksetup
            } else {
                Backend::Manual
            },
        ),
    }
}

/// Pick a Wi-Fi backend, by name or by probing the host.
pub fn get_backend<R: Runner>(name: Option<&str>, runner: &R, host: &Host) -> (backend: Result<
    Backend,
>)
    ensures
        name matches Some(name) ==> error::seen(backend) == chosen_backend(
            Some(name@),
            false,
            false,
        ),
        name is None ==> exists|nmcli: bool| #[trigger]
            nmcli_usable(runner, *host, nmcli) && error::seen(backend) == chosen_backend(
                None,
                nmcli,
                host.macos && host.networksetup_exists,
            ),
{
    match name {
        Some(name) => match backend_named(name) {
            Some(backend) => Ok(backend),
            None => {
                let mut detail = "unknown Wi-Fi backend ".to_owned();
                detail.append(text::quoted(name).as_str());
                detail.append("; known: [\"nmcli\", \"networksetup\", \"manual\"]");
                Err(Error::Network(detail))
            },
        },
        None => {
            if Nmcli::available(runner, host) {
                Ok(Backend::Nmcli)
            } else if Networksetup::<R>::available(host) {
                Ok(Backend::Networksetup)
            } else {
                Ok(Backend::Manual)
            }
        },
    }
}

/// Asking the user is the last resort: it is chosen unnamed only where no other
/// backend works.
pub proof fn lemma_manual_is_last(nmcli: bool, networksetup: bool)
    ensures
        chosen_backend(None, nmcli, networksetup) == Ok::<Backend, ErrorView>(Backend::Manual)
            <==> !nmcli && !networksetup,
        chosen_backend(None, nmcli, networksetup) is Ok,
{
}

/// A name that no backend has is refused, whatever the host.
pub proof fn lemma_unknown_backends_are_refused(name: Seq<char>, nmcli: bool, networksetup: bool)
    requires
        forall|backend: Backend| (#[trigger] backend.label()) != name,
    ensures
        chosen_backend(Some(name), nmcli, networksetup) is Err,
{
    assert(Backend::Nmcli.label() == "nmcli"@);
    assert(Backend::Networksetup.label() == "networksetup"@);
    assert(Backend::Manual.label() == "manual"@);
}

/// Joining with nmcli runs its commands in one order: the device is looked for only
/// where none is given, then comes a rescan, whose end does not matter, and then
/// the connection, which alone decides.
pub proof fn lemma_a_rescan_comes_first(
    ssid: Seq<char>,
    passphrase: Seq<char>,
    interface: Option<Seq<char>>,
    device: Seq<char>,
    devices: OutputView,
    rescanned: ResultView<OutputView>,
    connected: ResultView<OutputView>,
)
    requires
        match interface {
            Some(given) => given == device,
            None => nmcli_device(text::lines(devices.stdout), 0) == Some(device),
        },
    ensures
        ({
            let rescan = CommandView { argv: nmcli_rescan_argv(device), timeout: 20000 };
            let connect = CommandView {
                argv: nmcli_connect_argv(ssid, passphrase, device),
                timeout: 60000,
            };
            let look = CommandView { argv: nmcli_devices_argv(), timeout: 10000 };
            let start = nmcli_join_start(interface);
            match interface {
                Some(_) => nmcli_join_commands(ssid, passphrase, start, seq![rescanned, connected])
                    == seq![rescan, connect],
                None => nmcli_join_commands(
                    ssid,
                    passphrase,
                    start,
                    seq![Ok(devices), rescanned, connected],
                ) == seq![look, rescan, connect],
            }
        }),
        nmcli_join_next(
            NmcliJoinView::Connect { device },
            ssid,
            passphrase,
            connected,
        ) matches StepView::Done(result) && (result is Ok <==> (connected matches Ok(out)
            && out.status == 0)),
{
    reveal_with_fuel(nmcli_join_commands, 4);
    let short = seq![rescanned, connected];
    assert(short.skip(1) =~= seq![connected]);
    assert(short.skip(1).skip(1) =~= Seq::empty());
    let long = seq![Ok(devices), rescanned, connected];
    assert(long.skip(1) =~= short);
}

/// Commands are run one after the other, each once, up to the first failure: they
/// succeed where each of them does, and otherwise fail as the last one run did.
pub proof fn lemma_commands_run_in_order<R: Runner>(
    runner: &R,
    commands: Seq<CommandView>,
    strict: bool,
    outs: Seq<Result<Output>>,
)
    requires
        in_order(runner, commands, strict, outs) is Some,
    ensures
        outs.len() <= commands.len(),
        forall|i: int|
            0 <= i < outs.len() ==> ran(
                runner,
                commands[i].argv,
                commands[i].timeout,
                #[trigger] outs[i],
            ),
        forall|i: int|
            0 <= i < outs.len() - 1 ==> came_of(
                commands[i],
                strict,
                error::seen(#[trigger] outs[i]),
            ) is Ok,
        match in_order(runner, commands, strict, outs).unwrap() {
            Ok(_) => outs.len() == commands.len() && (outs.len() > 0 ==> came_of(
                commands.last(),
                strict,
                error::seen(outs.last()),
            ) is Ok),
            Err(error) => outs.len() > 0 && came_of(
                commands[outs.len() - 1],
                strict,
                error::seen(outs.last()),
            ) == Err::<(), ErrorView>(error),
        },
    decreases commands.len(),
{
    if commands.len() > 0 && came_of(commands[0], strict, error::seen(outs[0])) is Ok {
        let rest = commands.skip(1);
        let later = outs.skip(1);
        lemma_commands_run_in_order(runner, rest, strict, later);
        assert forall|i: int| 0 <= i < outs.len() implies ran(
            runner,
            commands[i].argv,
            commands[i].timeout,
            #[trigger] outs[i],
        ) by {
            if i > 0 {
                assert(later[i - 1] == outs[i]);
                assert(rest[i - 1] == commands[i]);
            }
        }
        assert forall|i: int| 0 <= i < outs.len() - 1 implies came_of(
            commands[i],
            strict,
            error::seen(#[trigger] outs[i]),
        ) is Ok by {
            if i > 0 {
                assert(later[i - 1] == outs[i]);
                assert(rest[i - 1] == commands[i]);
            }
        }
    }
}

/// Where there is nothing to put back no command is run, and otherwise one.
pub proof fn lemma_nothing_to_restore(state: WifiStateView)
    ensures
        nmcli_restore_commands(state).len() == if state.profile is Some {
            1nat
        } else {
            0nat
        },
        airport_restore_commands(state).len() == if state.interface is Some && state.ssid is Some {
            1nat
        } else {
            0nat
        },
        nmcli_restore_commands(no_association()) == Seq::<CommandView>::empty(),
        airport_restore_commands(no_association()) == Seq::<CommandView>::empty(),
{
}

/// SSID and passphrase each reach the command as one argument of their own,
/// whatever characters they hold.
pub proof fn lemma_credentials_stay_whole(
    ssid: Seq<char>,
    passphrase: Seq<char>,
    device: Seq<char>,
)
    ensures
        nmcli_connect_argv(ssid, passphrase, device)[4] == ssid,
        nmcli_connect_argv(ssid, passphrase, device)[6] == passphrase,
        set_airport_argv(device, ssid, Some(passphrase))[3] == ssid,
        set_airport_argv(device, ssid, Some(passphrase))[4] == passphrase,
{
}

/// The Wi-Fi device is the first field of the first line whose second field is
/// `wifi`, wherever that line stands.
pub proof fn lemma_the_first_wifi_device_is_found(stdout: Seq<char>, k: int)
    requires
        0 <= k < text::lines(stdout).len(),
        text::pieces(text::lines(stdout)[k], ':').len() >= 2,
        text::pieces(text::lines(stdout)[k], ':')[1] == "wifi"@,
        forall|j: int|
            0 <= j < k ==> !(text::pieces(#[trigger] text::lines(stdout)[j], ':').len() >= 2
                && text::pieces(text::lines(stdout)[j], ':')[1] == "wifi"@),
    ensures
        nmcli_device(text::lines(stdout), 0) == Some(
            text::pieces(text::lines(stdout)[k], ':')[0],
        ),
{
    lemma_device_from(text::lines(stdout), 0, k);
}

proof fn lemma_device_from(lines: Seq<Seq<char>>, from: nat, k: int)
    requires
        from <= k <= lines.len(),
        k < lines.len() ==> text::pieces(lines[k], ':').len() >= 2 && text::pieces(lines[k], ':')[1]
            == "wifi"@,
        forall|j: int|
            from <= j < k ==> !(text::pieces(#[trigger] lines[j], ':').len() >= 2 && text::pieces(
                lines[j],
                ':',
            )[1] == "wifi"@),
    ensures
        nmcli_device(lines, from) == if k < lines.len() {
            Some(text::pieces(lines[k], ':')[0])
        } else {
            None
        },
    decreases k - from,
{
    if from < k {
        assert(!(text::pieces(lines[from as int], ':').len() >= 2 && text::pieces(
            lines[from as int],
            ':',
        )[1] == "wifi"@));
        lemma_device_from(lines, from + 1, k);
    }
}

/// No Wi-Fi device is found exactly where no line has `wifi` as its second field.
pub proof fn lemma_no_wifi_device(stdout: Seq<char>)
    ensures
        nmcli_device(text::lines(stdout), 0) is None <==> forall|i: int|
            0 <= i < text::lines(stdout).len() ==> !(text::pieces(
                #[trigger] text::lines(stdout)[i],
                ':',
            ).len() >= 2 && text::pieces(text::lines(stdout)[i], ':')[1] == "wifi"@),
{
    let lines = text::lines(stdout);
    let found = |i: int|
        0 <= i < lines.len() && text::pieces(lines[i], ':').len() >= 2 && text::pieces(
            lines[i],
            ':',
        )[1] == "wifi"@;
    if exists|i: int| #[trigger] found(i) {
        let k = lemma_the_first(found, choose|i: int| #[trigger] found(i));
        assert forall|j: int| 0 <= j < k implies !(text::pieces(#[trigger] lines[j], ':').len() >= 2
            && text::pieces(lines[j], ':')[1] == "wifi"@) by {
            assert(!found(j));
        }
        lemma_device_from(lines, 0, k);
        assert(found(k));
    } else {
        assert forall|j: int| 0 <= j < lines.len() implies !(text::pieces(
            #[trigger] lines[j],
            ':',
        ).len() >= 2 && text::pieces(lines[j], ':')[1] == "wifi"@) by {
            assert(!found(j));
        }
        lemma_device_from(lines, 0, lines.len() as int);
    }
}

/// Of the numbers with a property, none below zero, there is a first.
proof fn lemma_the_first(holds: spec_fn(int) -> bool, at: int) -> (first: int)
    requires
        holds(at),
        forall|i: int| #[trigger] holds(i) ==> 0 <= i,
    ensures
        0 <= first <= at,
        holds(first),
        forall|i: int| 0 <= i < first ==> !#[trigger] holds(i),
    decreases at,
{
    if exists|i: int| 0 <= i < at && #[trigger] holds(i) {
        lemma_the_first(holds, choose|i: int| 0 <= i < at && #[trigger] holds(i))
    } else {
        at
    }
}

/// Where a line of nmcli's active connections has three fields or more and
/// `802-11-wireless` as its second, the host is on the network that the first such
/// line names in its first field, whatever lines of other kinds stand before it; and
/// its interface is the third field, or the one that was known where that is empty.
pub proof fn lemma_the_first_wireless_connection_is_found(
    interface: Option<Seq<char>>,
    stdout: Seq<char>,
    k: int,
)
    requires
        0 <= k < text::lines(stdout).len(),
        text::pieces(text::lines(stdout)[k], ':').len() >= 3,
        text::pieces(text::lines(stdout)[k], ':')[1] == "802-11-wireless"@,
        forall|j: int|
            0 <= j < k ==> !(text::pieces(#[trigger] text::lines(stdout)[j], ':').len() >= 3
                && text::pieces(text::lines(stdout)[j], ':')[1] == "802-11-wireless"@),
    ensures
        ({
            let fields = text::pieces(text::lines(stdout)[k], ':');
            let state = nmcli_association(interface, stdout);
            &&& state.ssid == Some(fields[0])
            &&& state.profile == Some(fields[0])
            &&& fields[2].len() > 0 ==> state.interface == Some(fields[2])
            &&& fields[2].len() == 0 ==> state.interface == interface
        }),
{
    lemma_connection_from(text::lines(stdout), 0, k);
}

proof fn lemma_connection_from(lines: Seq<Seq<char>>, from: nat, k: int)
    requires
        from <= k <= lines.len(),
        k < lines.len() ==> text::pieces(lines[k], ':').len() >= 3 && text::pieces(lines[k], ':')[1]
            == "802-11-wireless"@,
        forall|j: int|
            from <= j < k ==> !(text::pieces(#[trigger] lines[j], ':').len() >= 3 && text::pieces(
                lines[j],
                ':',
            )[1] == "802-11-wireless"@),
    ensures
        nmcli_connection(lines, from) == if k < lines.len() {
            Some((text::pieces(lines[k], ':')[0], text::pieces(lines[k], ':')[2]))
        } else {
            None
        },
    decreases k - from,
{
    if from < k {
        assert(!(text::pieces(lines[from as int], ':').len() >= 3 && text::pieces(
            lines[from as int],
            ':',
        )[1] == "802-11-wireless"@));
        lemma_connection_from(lines, from + 1, k);
    }
}

/// The host is told to be on no network exactly where no line of nmcli's active
/// connections is a wireless one; what was known of its interface is then kept.
pub proof fn lemma_no_wireless_connection(interface: Option<Seq<char>>, stdout: Seq<char>)
    ensures
        ({
            let state = nmcli_association(interface, stdout);
            let none = forall|i: int|
                0 <= i < text::lines(stdout).len() ==> !(text::pieces(
                    #[trigger] text::lines(stdout)[i],
                    ':',
                ).len() >= 3 && text::pieces(text::lines(stdout)[i], ':')[1]
                    == "802-11-wireless"@);
            &&& state.ssid is None <==> none
            &&& state.profile is None <==> none
            &&& none ==> state.interface == interface
        }),
{
    let lines = text::lines(stdout);
    let found = |i: int|
        0 <= i < lines.len() && text::pieces(lines[i], ':').len() >= 3 && text::pieces(
            lines[i],
            ':',
        )[1] == "802-11-wireless"@;
    if exists|i: int| #[trigger] found(i) {
        let k = lemma_the_first(found, choose|i: int| #[trigger] found(i));
        assert forall|j: int| 0 <= j < k implies !(text::pieces(#[trigger] lines[j], ':').len() >= 3
            && text::pieces(lines[j], ':')[1] == "802-11-wireless"@) by {
            assert(!found(j));
        }
        lemma_connection_from(lines, 0, k);
        assert(found(k));
    } else {
        assert forall|j: int| 0 <= j < lines.len() implies !(text::pieces(
            #[trigger] lines[j],
            ':',
        ).len() >= 3 && text::pieces(lines[j], ':')[1] == "802-11-wireless"@) by {
            assert(!found(j));
        }
        lemma_connection_from(lines, 0, lines.len() as int);
    }
}

/// Whether a line, trimmed, begins with a word.
pub open spec fn begins(line: Seq<char>, word: Seq<char>) -> bool {
    text::has_prefix(text::trimmed(line), word)
}

/// What follows that word, trimmed.
pub open spec fn value_behind(line: Seq<char>, word: Seq<char>) -> Seq<char> {
    text::trimmed(text::trimmed(line).skip(word.len() as int))
}

/// Whether line `k` gives the device of a Wi-Fi port: the last port named before it
/// is `Wi-Fi` or `AirPort`, in line `j`.
pub open spec fn is_wifi_device_line(lines: Seq<Seq<char>>, j: int, k: int) -> bool {
    &&& 0 <= j < k < lines.len()
    &&& begins(lines[j], "Hardware Port:"@)
    &&& value_behind(lines[j], "Hardware Port:"@) == "Wi-Fi"@ || value_behind(
        lines[j],
        "Hardware Port:"@,
    ) == "AirPort"@
    &&& forall|i: int| j < i <= k ==> !begins(#[trigger] lines[i], "Hardware Port:"@)
    &&& begins(lines[k], "Device:"@)
}

/// The device that networksetup's list of ports gives is that of the first line that
/// gives the device of a Wi-Fi port, wherever its block stands; and there is none
/// exactly where no line does.
pub proof fn lemma_the_wifi_port_is_found(stdout: Seq<char>)
    ensures
        match port_device(text::lines(stdout), 0, false) {
            Some(device) => exists|j: int, k: int|
                {
                    &&& #[trigger] is_wifi_device_line(text::lines(stdout), j, k)
                    &&& device == value_behind(text::lines(stdout)[k], "Device:"@)
                    &&& forall|a: int, b: int|
                        b < k ==> !#[trigger] is_wifi_device_line(text::lines(stdout), a, b)
                },
            None => forall|a: int, b: int|
                !#[trigger] is_wifi_device_line(text::lines(stdout), a, b),
        },
{
    lemma_port_from(text::lines(stdout), 0, None);
}

proof fn lemma_port_from(lines: Seq<Seq<char>>, from: nat, block: Option<int>)
    requires
        from <= lines.len(),
        match block {
            Some(j) => {
                &&& 0 <= j < from
                &&& begins(lines[j], "Hardware Port:"@)
                &&& value_behind(lines[j], "Hardware Port:"@) == "Wi-Fi"@ || value_behind(
                    lines[j],
                    "Hardware Port:"@,
                ) == "AirPort"@
                &&& forall|i: int|
                    j < i < from ==> !begins(#[trigger] lines[i], "Hardware Port:"@)
            },
            None => forall|j: int|
                0 <= j < from && begins(#[trigger] lines[j], "Hardware Port:"@) && (value_behind(
                    lines[j],
                    "Hardware Port:"@,
                ) == "Wi-Fi"@ || value_behind(lines[j], "Hardware Port:"@) == "AirPort"@)
                    ==> exists|i: int|
                    j < i < from && begins(#[trigger] lines[i], "Hardware Port:"@),
        },
        forall|a: int, b: int| b < from ==> !#[trigger] is_wifi_device_line(lines, a, b),
    ensures
        match port_device(lines, from, block is Some) {
            Some(device) => exists|j: int, k: int|
                {
                    &&& #[trigger] is_wifi_device_line(lines, j, k)
                    &&& device == value_behind(lines[k], "Device:"@)
                    &&& forall|a: int, b: int|
                        b < k ==> !#[trigger] is_wifi_device_line(lines, a, b)
                },
            None => forall|a: int, b: int| !#[trigger] is_wifi_device_line(lines, a, b),
        },
    decreases lines.len() - from,
{
    if from < lines.len() {
        let line = lines[from as int];
        if begins(line, "Hardware Port:"@) {
            let port = value_behind(line, "Hardware Port:"@);
            assert forall|a: int, b: int| b < from + 1 implies !#[trigger] is_wifi_device_line(
                lines,
                a,
                b,
            ) by {
                if b == from && is_wifi_device_line(lines, a, b) {
                    assert(!begins(lines[b], "Hardware Port:"@));
                }
            }
            if port == "Wi-Fi"@ || port == "AirPort"@ {
                lemma_port_from(lines, from + 1, Some(from as int));
            } else {
                assert forall|j: int|
                    0 <= j < from + 1 && begins(#[trigger] lines[j], "Hardware Port:"@) && (
                    value_behind(lines[j], "Hardware Port:"@) == "Wi-Fi"@ || value_behind(
                        lines[j],
                        "Hardware Port:"@,
                    ) == "AirPort"@) implies exists|i: int|
                    j < i < from + 1 && begins(#[trigger] lines[i], "Hardware Port:"@) by {
                    assert(j < from);
                    assert(begins(lines[from as int], "Hardware Port:"@));
                }
                lemma_port_from(lines, from + 1, None);
            }
        } else if block is Some && begins(line, "Device:"@) {
            let j = block.unwrap();
            assert(is_wifi_device_line(lines, j, from as int));
        } else {
            assert forall|a: int, b: int| b < from + 1 implies !#[trigger] is_wifi_device_line(
                lines,
                a,
                b,
            ) by {
                if b == from && is_wifi_device_line(lines, a, b) {
                    assert(block is None);
                    let i = choose|i: int|
                        a < i < from && begins(#[trigger] lines[i], "Hardware Port:"@);
                    assert(!begins(lines[i], "Hardware Port:"@));
                }
            }
            lemma_port_from(lines, from + 1, block);
        }
    } else {
        assert forall|a: int, b: int| !#[trigger] is_wifi_device_line(lines, a, b) by {
            if is_wifi_device_line(lines, a, b) {
                assert(b < from);
            }
        }
    }
}

/// Whether a line says which network the host is on.
pub open spec fn names_a_network(line: Seq<char>) -> bool {
    ||| begins(line, "Current Wi-Fi Network:"@) && value_behind(
        line,
        "Current Wi-Fi Network:"@,
    ).len() > 0
    ||| begins(line, "Current WiFi Network:"@) && value_behind(
        line,
        "Current WiFi Network:"@,
    ).len() > 0
}

/// The network that networksetup gives is the one behind `Current Wi-Fi Network:`, or
/// its older spelling, in the first line that names one, whatever stands before it;
/// prose names none.
pub proof fn lemma_the_current_network_is_found(stdout: Seq<char>)
    ensures
        match network_named(text::lines(stdout), 0) {
            Some(name) => exists|k: int|
                {
                    &&& 0 <= k < text::lines(stdout).len()
                    &&& names_a_network(#[trigger] text::lines(stdout)[k])
                    &&& begins(text::lines(stdout)[k], "Current Wi-Fi Network:"@) ==> name
                        == value_behind(text::lines(stdout)[k], "Current Wi-Fi Network:"@)
                    &&& begins(text::lines(stdout)[k], "Current WiFi Network:"@) ==> name
                        == value_behind(text::lines(stdout)[k], "Current WiFi Network:"@)
                    &&& name.len() > 0
                    &&& forall|j: int|
                        0 <= j < k ==> !names_a_network(#[trigger] text::lines(stdout)[j])
                },
            None => forall|j: int|
                0 <= j < text::lines(stdout).len() ==> !names_a_network(
                    #[trigger] text::lines(stdout)[j],
                ),
        },
{
    lemma_network_from(text::lines(stdout), 0);
}

proof fn lemma_network_from(lines: Seq<Seq<char>>, from: nat)
    requires
        from <= lines.len(),
        forall|j: int| 0 <= j < from ==> !names_a_network(#[trigger] lines[j]),
    ensures
        match network_named(lines, from) {
            Some(name) => exists|k: int|
                {
                    &&& 0 <= k < lines.len()
                    &&& names_a_network(#[trigger] lines[k])
                    &&& begins(lines[k], "Current Wi-Fi Network:"@) ==> name == value_behind(
                        lines[k],
                        "Current Wi-Fi Network:"@,
                    )
                    &&& begins(lines[k], "Current WiFi Network:"@) ==> name == value_behind(
                        lines[k],
                        "Current WiFi Network:"@,
                    )
                    &&& name.len() > 0
                    &&& forall|j: int| 0 <= j < k ==> !names_a_network(#[trigger] lines[j])
                },
            None => forall|j: int| 0 <= j < lines.len() ==> !names_a_network(#[trigger] lines[j]),
        },
    decreases lines.len() - from,
{
    reveal_strlit("Current Wi-Fi Network:");
    reveal_strlit("Current WiFi Network:");
    if from < lines.len() {
        let line = lines[from as int];
        let trimmed = text::trimmed(line);
        if begins(line, "Current Wi-Fi Network:"@) && begins(line, "Current WiFi Network:"@) {
            assert(trimmed.take("Current Wi-Fi Network:"@.len() as int)[10] == trimmed[10]);
            assert(trimmed.take("Current WiFi Network:"@.len() as int)[10] == trimmed[10]);
        }
        if network_in_line(line) is Some {
            assert(names_a_network(lines[from as int]));
        } else {
            lemma_network_from(lines, from + 1);
        }
    }
}

/// Each backend goes by its own name, and a name settles the choice whatever the host
/// can do; unnamed, nmcli is preferred to networksetup, and both to asking.
pub proof fn lemma_backends_go_by_their_names(
    backend: Backend,
    name: Seq<char>,
    nmcli: bool,
    networksetup: bool,
)
    ensures
        chosen_backend(Some(backend.label()), nmcli, networksetup) == Ok::<Backend, ErrorView>(
            backend,
        ),
        chosen_backend(Some(name), nmcli, networksetup) matches Ok(chosen) ==> name
            == chosen.label(),
        nmcli ==> chosen_backend(None, nmcli, networksetup) == Ok::<Backend, ErrorView>(
            Backend::Nmcli,
        ),
        !nmcli && networksetup ==> chosen_backend(None, nmcli, networksetup) == Ok::<
            Backend,
            ErrorView,
        >(Backend::Networksetup),
{
    reveal_strlit("nmcli");
    reveal_strlit("networksetup");
    reveal_strlit("manual");
    assert("nmcli"@[1] == 'm');
    assert("networksetup"@[1] == 'e');
    assert("manual"@[0] == 'm');
}

/// A command that has to succeed does so exactly where it was run and ended with
/// status zero, and then gives what it wrote; one that was not run fails as that did,
/// and one that ended otherwise fails in the words it wrote as errors, or, where
/// those are blank, in those it wrote at all.
pub proof fn lemma_only_status_zero_is_success(argv: Seq<Seq<char>>, out: ResultView<OutputView>)
    ensures
        match out {
            Err(error) => verdict(argv, out) == Err::<OutputView, ErrorView>(error),
            Ok(output) => {
                &&& output.status == 0 <==> verdict(argv, out) is Ok
                &&& output.status == 0 ==> verdict(argv, out) == Ok::<OutputView, ErrorView>(output)
                &&& output.status != 0 ==> (verdict(argv, out) matches Err(ErrorView::Network(said))
                    && {
                    let words = if text::trimmed(output.stderr) == Seq::<char>::empty() {
                        text::trimmed(output.stdout)
                    } else {
                        text::trimmed(output.stderr)
                    };
                    said.len() >= words.len() && said.skip(said.len() - words.len()) == words
                })
            },
        },
{
    if let Ok(output) = out {
        if output.status != 0 {
            let said = verdict(argv, out)->Err_0->Network_0;
            let words = complaint(output);
            assert(text::trimmed(output.stderr).len() == 0 ==> text::trimmed(output.stderr)
                =~= Seq::<char>::empty());
            assert(said.skip(said.len() - words.len()) =~= words);
        }
    }
}

/// What is put back is what was found: nmcli brings the profile up again, on the
/// interface where one is known, and networksetup the network on its device, without
/// a passphrase.
pub proof fn lemma_what_was_found_is_put_back(state: WifiStateView)
    ensures
        state.profile matches Some(profile) ==> {
            let argv = nmcli_restore_commands(state)[0].argv;
            &&& argv.take(4) == seq!["nmcli"@, "connection"@, "up"@, profile]
            &&& match state.interface {
                Some(interface) => argv.skip(4) == seq!["ifname"@, interface],
                None => argv.len() == 4,
            }
        },
        (state.interface is Some && state.ssid is Some) ==> {
            let argv = airport_restore_commands(state)[0].argv;
            argv.skip(1) == seq![
                "-setairportnetwork"@,
                state.interface.unwrap(),
                state.ssid.unwrap(),
            ]
        },
{
}

/// What joins a network runs on the device that it was given, or that was found.
pub proof fn lemma_joining_stays_on_the_device(
    ssid: Seq<char>,
    passphrase: Seq<char>,
    device: Seq<char>,
    stdout: Seq<char>,
)
    ensures
        nmcli_rescan_argv(device).skip(4) == seq!["ifname"@, device],
        nmcli_connect_argv(ssid, passphrase, device).skip(7) == seq!["ifname"@, device],
        nmcli_connect_argv(ssid, passphrase, device)[5] == "password"@,
        set_airport_argv(device, ssid, Some(passphrase))[2] == device,
        set_airport_argv(device, ssid, Some(passphrase)).len() == 5,
        nmcli_join_start(Some(device)) == (NmcliJoinView::Rescan { device }),
        airport_association(device, stdout).interface == Some(device),
        airport_association(device, stdout).profile == airport_association(device, stdout).ssid,
{
}

/// Of a whole join with nmcli: it works exactly where the last command it ran, which
/// connects with the credentials given, ended with status zero; on the device given, or
/// else on the one that nmcli's list was found to have, and without one it fails.
pub proof fn lemma_a_whole_join<R: Runner>(
    runner: &R,
    ssid: Seq<char>,
    passphrase: Seq<char>,
    interface: Option<Seq<char>>,
    outs: Seq<Result<Output>>,
    result: ResultView<()>,
)
    requires
        nmcli_join_result(runner, ssid, passphrase, nmcli_join_start(interface), outs) == Some(
            result,
        ),
    ensures
        interface matches Some(device) ==> {
            &&& outs.len() == 2
            &&& ran(runner, nmcli_rescan_argv(device), 20000, outs[0])
            &&& ran(runner, nmcli_connect_argv(ssid, passphrase, device), 60000, outs[1])
        },
        interface is None ==> {
            &&& outs.len() == 1 || outs.len() == 3
            &&& ran(runner, nmcli_devices_argv(), 10000, outs[0])
            &&& outs.len() == 1 ==> result is Err
            &&& outs.len() == 3 ==> (error::seen(outs[0]) matches Ok(listed) && (nmcli_device(
                text::lines(listed.stdout),
                0,
            ) matches Some(device) && ran(
                runner,
                nmcli_connect_argv(ssid, passphrase, device),
                60000,
                outs[2],
            )))
        },
        outs.len() > 1 ==> (result is Ok <==> (error::seen(outs.last()) matches Ok(out)
            && out.status == 0)),
{
    reveal_with_fuel(nmcli_join_result, 4);
    let one = outs.skip(1);
    let two = one.skip(1);
    if one.len() > 0 {
        assert(one[0] == outs[1]);
        if two.len() > 0 {
            assert(two[0] == outs[2]);
        }
    }
}

} // verus!
