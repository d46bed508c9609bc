use gr3sync::camera::DEFAULT_HOST;
use gr3sync::config::{ConfigFile, Environment};
use gr3sync::{Config, Error};

fn env(config_home: Option<&str>, home: Option<&str>) -> Environment {
    Environment {
        config_home: config_home.map(String::from),
        home: home.map(String::from),
    }
}

#[test]
fn a_missing_file_yields_defaults() {
    let config = Config::load_from("/definitely/not/here.toml", ConfigFile::Absent).unwrap();
    assert_eq!(config.host, DEFAULT_HOST);
    assert_eq!(config.min_battery, 15);
    assert!(config.power_off && config.keep_dirs);
}

#[test]
fn partial_files_keep_the_other_defaults() {
    let parsed = Config {
        min_battery: 0,
        ..Default::default()
    };
    let config = Config::load_from("/c/config.toml", ConfigFile::Parsed(parsed)).unwrap();
    assert_eq!(config.min_battery, 0);
    assert_eq!(config.host, DEFAULT_HOST);
}

#[test]
fn a_typo_is_reported_rather_than_silently_ignored() {
    // Silently defaulting here would sync to the wrong directory and look
    // like it worked.
    let reason = "unknown field `destination`".to_string();
    let err = Config::load_from("/c/config.toml", ConfigFile::Malformed(reason)).unwrap_err();
    assert!(err.message().contains("destination"), "{err:?}");
    assert!(err.message().contains("/c/config.toml"), "{err:?}");
    assert!(matches!(err, Error::Config(_)));
    assert_eq!(err.exit_code(), 2);
}

#[test]
fn tilde_in_dest_is_expanded() {
    let config = Config {
        dest: Some("~/Pictures/GR3".into()),
        ..Default::default()
    };
    for home in [Some("/home/me"), None] {
        let resolved = config.resolved_dest(None, &env(None, home));
        let path = std::path::Path::new(&resolved);
        assert!(path.is_absolute() || path.starts_with("."), "{resolved}");
        assert!(!resolved.contains('~'), "{resolved}");
    }
    assert_eq!(
        config.resolved_dest(None, &env(None, Some("/home/me"))),
        "/home/me/Pictures/GR3"
    );
}

#[test]
fn the_command_line_wins_over_the_file() {
    let config = Config {
        dest: Some("/from/file".into()),
        ..Default::default()
    };
    assert_eq!(
        config.resolved_dest(Some("/from/flag"), &env(None, Some("/home/me"))),
        "/from/flag"
    );
}

#[test]
fn the_file_is_below_the_configuration_home() {
    assert_eq!(
        Config::path(&env(Some("/xdg"), Some("/home/me"))),
        "/xdg/gr3sync/config.toml"
    );
    assert_eq!(
        Config::path(&env(None, Some("/home/me"))),
        "/home/me/.config/gr3sync/config.toml"
    );
    assert_eq!(Config::dir(&env(Some("/xdg"), None)), "/xdg/gr3sync");
}

#[test]
fn photos_go_below_the_pictures_where_nothing_is_said() {
    assert_eq!(
        Config::default().resolved_dest(None, &env(None, Some("/home/me"))),
        "/home/me/Pictures/GR3"
    );
    // A tilde in the middle is an ordinary character.
    assert_eq!(
        Config::default().resolved_dest(Some("/a/~/b"), &env(None, Some("/home/me"))),
        "/a/~/b"
    );
}
