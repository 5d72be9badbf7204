use oo7_keyring::io_error::{IoError, IoErrorKind};
use oo7_keyring::server::config::{
    standard_location, Config, ConfigError, ConfigErrorSource, ConfigFile, LoginKeyringConfig,
    ParseError,
};

fn gpg(key: Option<&str>) -> Config {
    Config {
        login_keyring: LoginKeyringConfig {
            use_gpg: true,
            gpg_key_id: key.map(|k| k.to_string()),
        },
        disable_v1_keyrings: true,
    }
}

fn unreadable() -> ConfigFile {
    ConfigFile::Unreadable(IoError::new(IoErrorKind::NotFound, "not there"))
}

fn malformed() -> ConfigFile {
    ConfigFile::Malformed(ParseError { message: "expected `=`".to_string() })
}

#[test]
fn configurations_are_copied() {
    let config = gpg(Some("key"));
    let copy = config.clone();
    assert_eq!(copy.login_keyring.use_gpg, config.login_keyring.use_gpg);
    assert_eq!(copy.login_keyring.gpg_key_id, config.login_keyring.gpg_key_id);
    assert_eq!(format!("{:?}", copy), format!("{:?}", config));
}

#[test]
fn default_configuration_is_valid() {
    let config = Config::default();
    assert!(!config.login_keyring.use_gpg);
    assert!(config.login_keyring.gpg_key_id.is_none());
    assert!(!config.disable_v1_keyrings);
    assert!(config.validate().is_ok());
}

#[test]
fn gpg_needs_a_key() {
    match gpg(None).validate() {
        Err(ConfigError::Validation(text)) => {
            assert_eq!(text, "GPG encryption enabled but no GPG key ID specified")
        }
        _ => panic!("the configuration should be refused"),
    }
    assert!(gpg(Some("0x1234567890ABCDEF")).validate().is_ok());
    let unused = Config {
        login_keyring: LoginKeyringConfig { use_gpg: false, gpg_key_id: None },
        disable_v1_keyrings: true,
    };
    assert!(unused.validate().is_ok());
}

#[test]
fn files_are_loaded() {
    let Ok(config) = Config::load(ConfigFile::Parsed(gpg(Some("key")))) else { panic!() };
    assert_eq!(config.login_keyring.gpg_key_id, Some("key".to_string()));
    assert!(config.disable_v1_keyrings);

    let Err(error) = Config::load(unreadable()) else { panic!() };
    assert_eq!(error.display(), "I/O error: not there");
    assert!(matches!(error.source(), Some(ConfigErrorSource::Io(_))));

    let Err(error) = Config::load(malformed()) else { panic!() };
    assert_eq!(error.display(), "Parse error: expected `=`");
    assert!(matches!(error.source(), Some(ConfigErrorSource::Parse(_))));

    let error = ConfigError::Validation("odd".to_string());
    assert_eq!(error.display(), "Validation error: odd");
    assert!(error.source().is_none());
}

#[test]
fn defaults_take_the_place_of_a_file() {
    let config = Config::load_from_standard_locations(Some(ConfigFile::Parsed(gpg(None))));
    assert!(config.login_keyring.use_gpg);
    for file in [None, Some(unreadable()), Some(malformed())] {
        let config = Config::load_from_standard_locations(file);
        assert!(!config.login_keyring.use_gpg);
        assert!(!config.disable_v1_keyrings);
    }
}

#[test]
fn the_first_directory_that_is_set_counts() {
    let xdg = || Some("/xdg".to_string());
    let home = || Some("/home/me".to_string());
    let Some(location) = standard_location(xdg(), home()) else { panic!() };
    assert_eq!(location.directory, "/xdg");
    assert_eq!(location.file, "oo7-daemon/config.toml");
    let Some(location) = standard_location(None, home()) else { panic!() };
    assert_eq!(location.directory, "/home/me");
    assert_eq!(location.file, ".config/oo7-daemon/config.toml");
    assert!(standard_location(None, None).is_none());
}
