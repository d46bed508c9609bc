//! Persistent defaults, so the common case is `gr3sync pull` with no flags.
//!
//! Config lives at `$XDG_CONFIG_HOME/gr3sync/config.toml` (`~/.config/...` when
//! that is unset). Every key is optional and every key has a command-line
//! equivalent that overrides it.

use crate::camera::DEFAULT_HOST;
use crate::error;
use crate::error::{Error, ErrorView, Result, ResultView};
use crate::paths;
use crate::text;
use vstd::prelude::*;

verus! {

pub const APP_NAME: &'static str = "gr3sync";

#[derive(Debug)]
pub struct Config {
    /// Where photos land. Card subdirectories are created underneath.
    pub dest: Option<String>,
    /// BLE address of the camera, to skip the discovery scan.
    pub address: Option<String>,
    /// Wi-Fi backend override: "nmcli", "networksetup" or "manual".
    pub wifi_backend: Option<String>,
    /// Wi-Fi interface override, when the host has more than one.
    pub wifi_interface: Option<String>,
    /// Camera HTTP address while its AP is up. Fixed in firmware; overridable
    /// only for testing against a stand-in server.
    pub host: String,
    /// Refuse to start a sync below this battery percentage.
    pub min_battery: i8,
    /// Power the camera off afterwards, but only if gr3sync woke it.
    pub power_off: bool,
    /// Put files in `dest/100RICOH/x.JPG` rather than `dest/x.JPG`.
    pub keep_dirs: bool,
}

/// A configuration, mathematically.
#[verifier::ext_equal]
pub struct ConfigView {
    pub dest: Option<Seq<char>>,
    pub address: Option<Seq<char>>,
    pub wifi_backend: Option<Seq<char>>,
    pub wifi_interface: Option<Seq<char>>,
    pub host: Seq<char>,
    pub min_battery: i8,
    pub power_off: bool,
    pub keep_dirs: bool,
}

impl View for Config {
    type V = ConfigView;

    open spec fn view(&self) -> ConfigView {
        ConfigView {
            dest: self.dest.deep_view(),
            address: self.address.deep_view(),
            wifi_backend: self.wifi_backend.deep_view(),
            wifi_interface: self.wifi_interface.deep_view(),
            host: self.host@,
            min_battery: self.min_battery,
            power_off: self.power_off,
            keep_dirs: self.keep_dirs,
        }
    }
}

impl DeepView for Config {
    type V = ConfigView;

    open spec fn deep_view(&self) -> ConfigView {
        self@
    }
}

/// What holds where nothing is configured.
pub open spec fn default_config() -> ConfigView {
    ConfigView {
        dest: None,
        address: None,
        wifi_backend: None,
        wifi_interface: None,
        host: "192.168.0.1"@,
        min_battery: 15,
        power_off: true,
        keep_dirs: true,
    }
}

impl Default for Config {
    fn default() -> (config: Self)
        ensures
            config@ == default_config(),
    {
        Config {
            dest: None,
            address: None,
            wifi_backend: None,
            wifi_interface: None,
            host: DEFAULT_HOST.to_owned(),
            min_battery: 15,
            power_off: true,
            keep_dirs: true,
        }
    }
}

/// The variables of the environment that say where things are.
#[derive(Debug)]
pub struct Environment {
    /// `XDG_CONFIG_HOME`.
    pub config_home: Option<String>,
    /// `HOME`.
    pub home: Option<String>,
}

/// The environment, mathematically.
#[verifier::ext_equal]
pub struct EnvironmentView {
    pub config_home: Option<Seq<char>>,
    pub home: Option<Seq<char>>,
}

impl View for Environment {
    type V = EnvironmentView;

    open spec fn view(&self) -> EnvironmentView {
        EnvironmentView { config_home: self.config_home.deep_view(), home: self.home.deep_view() }
    }
}

/// The user's home; without one, here.
pub open spec fn home_path(env: EnvironmentView) -> Seq<char> {
    match env.home {
        Some(home) => home,
        None => "."@,
    }
}

/// Where the configuration is kept.
pub open spec fn config_dir(env: EnvironmentView) -> Seq<char> {
    match env.config_home {
        Some(base) => paths::joined(base, "gr3sync"@),
        None => paths::joined(paths::joined(home_path(env), ".config"@), "gr3sync"@),
    }
}

/// A path whose leading tilde stands for the user's home.
pub open spec fn expanded(raw: Seq<char>, env: EnvironmentView) -> Seq<char> {
    match text::after_prefix(raw, "~/"@) {
        Some(rest) => paths::joined(home_path(env), rest),
        None => if raw == "~"@ {
            home_path(env)
        } else {
            raw
        },
    }
}

/// Where photos go: what the command line says, else what the file says, else
/// below the user's pictures.
pub open spec fn destination(
    config: ConfigView,
    override_dest: Option<Seq<char>>,
    env: EnvironmentView,
) -> Seq<char> {
    let raw = match override_dest {
        Some(dest) => dest,
        None => match config.dest {
            Some(dest) => dest,
            None => paths::joined(paths::joined(home_path(env), "Pictures"@), "GR3"@),
        },
    };
    expanded(raw, env)
}

/// What came of reading the configuration file.
#[derive(Debug)]
pub enum ConfigFile {
    /// There is none.
    Absent,
    Parsed(Config),
    /// It cannot be read as a configuration, and why.
    Malformed(String),
}

#[verifier::ext_equal]
pub enum ConfigFileView {
    Absent,
    Parsed(ConfigView),
    Malformed(Seq<char>),
}

impl View for ConfigFile {
    type V = ConfigFileView;

    open spec fn view(&self) -> ConfigFileView {
        match *self {
            ConfigFile::Absent => ConfigFileView::Absent,
            ConfigFile::Parsed(config) => ConfigFileView::Parsed(config@),
            ConfigFile::Malformed(reason) => ConfigFileView::Malformed(reason@),
        }
    }
}

/// The configuration that holds, given the file at `path`.
pub open spec fn loaded(path: Seq<char>, file: ConfigFileView) -> ResultView<ConfigView> {
    match file {
        ConfigFileView::Absent => Ok(default_config()),
        ConfigFileView::Parsed(config) => Ok(config),
        ConfigFileView::Malformed(reason) => Err(ErrorView::Config(path + ": "@ + reason)),
    }
}

fn home_dir(env: &Environment) -> (home: String)
    ensures
        home@ == home_path(env@),
{
    match &env.home {
        Some(home) => home.clone(),
        None => ".".to_owned(),
    }
}

fn expand_tilde(raw: &str, env: &Environment) -> (path: String)
    ensures
        path@ == expanded(raw@, env@),
{
    match text::strip(raw, "~/") {
        Some(rest) => paths::join(home_dir(env).as_str(), rest.as_str()),
        None => if text::same(raw, "~") {
            home_dir(env)
        } else {
            raw.to_owned()
        },
    }
}

impl Config {
    pub fn dir(env: &Environment) -> (path: String)
        ensures
            path@ == config_dir(env@),
    {
        match &env.config_home {
            Some(base) => paths::join(base.as_str(), APP_NAME),
            None => {
                let base = paths::join(home_dir(env).as_str(), ".config");
                paths::join(base.as_str(), APP_NAME)
            },
        }
    }

    pub fn path(env: &Environment) -> (path: String)
        ensures
            path@ == paths::joined(config_dir(env@), "config.toml"@),
    {
        paths::join(Self::dir(env).as_str(), "config.toml")
    }

    /// The configuration, given what came of reading the file at
    /// [`Config::path`].
    pub fn load(env: &Environment, file: ConfigFile) -> (config: Result<Self>)
        ensures
            error::seen(config) == loaded(
                paths::joined(config_dir(env@), "config.toml"@),
                file@,
            ),
    {
        Self::load_from(Self::path(env).as_str(), file)
    }

    /// The configuration, given what came of reading the file at `path`. A
    /// malformed file is an error rather than a silent fall back to defaults:
    /// syncing to the wrong directory because a typo made the whole file
    /// unreadable is worse than refusing to start.
    pub fn load_from(path: &str, file: ConfigFile) -> (config: Result<Self>)
        ensures
            error::seen(config) == loaded(path@, file@),
    {
        match file {
            ConfigFile::Absent => Ok(Config::default()),
            ConfigFile::Parsed(config) => Ok(config),
            ConfigFile::Malformed(reason) => {
                let mut detail = path.to_owned();
                detail.append(": ");
                detail.append(reason.as_str());
                Err(Error::Config(detail))
            },
        }
    }

    pub fn resolved_dest(&self, override_dest: Option<&str>, env: &Environment) -> (dest: String)
        ensures
            dest@ == destination(self@, override_dest.deep_view(), env@),
    {
        let raw = match override_dest {
            Some(dest) => dest.to_owned(),
            None => match &self.dest {
                Some(dest) => dest.clone(),
                None => {
                    let pictures = paths::join(home_dir(env).as_str(), "Pictures");
                    paths::join(pictures.as_str(), "GR3")
                },
            },
        };
        expand_tilde(raw.as_str(), env)
    }
}

/// The command line wins over the file.
pub proof fn lemma_the_command_line_wins(
    config: ConfigView,
    dest: Seq<char>,
    env: EnvironmentView,
)
    ensures
        destination(config, Some(dest), env) == expanded(dest, env),
{
}

/// A malformed file is never passed over in favour of the defaults.
pub proof fn lemma_a_malformed_file_is_refused(path: Seq<char>, reason: Seq<char>)
    ensures
        loaded(path, ConfigFileView::Malformed(reason)) is Err,
{
}

/// Where photos go, by precedence: where the command line says, else where the file
/// says, else below the user's pictures.
pub proof fn lemma_where_photos_go(
    config: ConfigView,
    given: Option<Seq<char>>,
    dest: Seq<char>,
    home: Seq<char>,
    env: EnvironmentView,
)
    requires
        env.home == Some(home),
        home.len() > 0,
        home[0] == '/',
        home.last() != '/',
    ensures
        given is None && config.dest == Some(dest) ==> destination(config, given, env) == expanded(
            dest,
            env,
        ),
        given == Some(dest) ==> destination(config, given, env) == expanded(dest, env),
        given is None && config.dest is None ==> destination(config, given, env) == home
            + "/Pictures/GR3"@,
{
    reveal_strlit("Pictures");
    reveal_strlit("GR3");
    reveal_strlit("/Pictures/GR3");
    reveal_strlit("~/");
    reveal_strlit("~");
    let below = paths::joined(paths::joined(home, "Pictures"@), "GR3"@);
    assert(below =~= home + "/Pictures/GR3"@);
    assert(below[0] == '/');
    if text::has_prefix(below, "~/"@) {
        assert(below.take(2)[0] == '~');
    }
    assert(below != "~"@) by {
        assert("~"@[0] == '~');
    }
}

/// A tilde that stands alone, or before a slash, is the user's home; every other path
/// is taken as it is.
pub proof fn lemma_the_tilde_is_home(raw: Seq<char>, rest: Seq<char>, env: EnvironmentView)
    ensures
        expanded("~"@, env) == home_path(env),
        expanded("~/"@ + rest, env) == paths::joined(home_path(env), rest),
        (raw.len() == 0 || raw[0] != '~' || (raw.len() > 1 && raw[1] != '/')) ==> expanded(raw, env)
            == raw,
        env.home matches Some(home) ==> home_path(env) == home,
{
    reveal_strlit("~/");
    reveal_strlit("~");
    let tilde = "~/"@ + rest;
    assert(tilde.take(2) =~= "~/"@);
    assert(tilde.skip(2) =~= rest);
    if text::has_prefix(raw, "~/"@) {
        assert(raw.take(2)[0] == raw[0] && raw.take(2)[1] == raw[1]);
    }
    assert("~/"@[0] == '~' && "~/"@[1] == '/');
}

/// The configuration is kept below `XDG_CONFIG_HOME` where that is set, whatever the
/// user's home, and else below the home's `.config`.
pub proof fn lemma_where_the_configuration_is_kept(env: EnvironmentView, home: Seq<char>)
    requires
        home.len() > 0,
        home.last() != '/',
    ensures
        env.config_home == Some(home) ==> config_dir(env) == home + "/gr3sync"@,
        env.config_home is None && env.home == Some(home) ==> config_dir(env) == home
            + "/.config/gr3sync"@,
{
    reveal_strlit("gr3sync");
    reveal_strlit("/gr3sync");
    reveal_strlit(".config");
    reveal_strlit("/.config/gr3sync");
    assert(paths::joined(home, "gr3sync"@) =~= home + "/gr3sync"@);
    assert(paths::joined(paths::joined(home, ".config"@), "gr3sync"@) =~= home
        + "/.config/gr3sync"@);
}

/// A file that was read counts as it stands; only where there is none do the defaults
/// hold.
pub proof fn lemma_what_is_read_counts(path: Seq<char>, file: ConfigFileView, config: ConfigView)
    ensures
        file == ConfigFileView::Parsed(config) ==> loaded(path, file) == Ok::<
            ConfigView,
            ErrorView,
        >(config),
        file is Absent <==> loaded(path, file) == Ok::<ConfigView, ErrorView>(default_config()) && !(
        file is Parsed),
        loaded(path, file) matches Err(ErrorView::Config(why)) ==> text::has_prefix(why, path),
{
    if let ConfigFileView::Malformed(reason) = file {
        assert((path + ": "@ + reason).take(path.len() as int) =~= path);
    }
}

} // verus!
