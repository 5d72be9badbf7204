//! The configuration of the daemon.
use vstd::prelude::*;

use crate::io_error::IoError;

verus! {

/// Configuration for the oo7-daemon
#[derive(Clone, Debug)]
pub struct Config {
    /// Configuration for the default Login keyring
    pub login_keyring: LoginKeyringConfig,
    /// Disable support for v1 (GNOME Keyring) password-based keyrings
    ///
    /// When enabled, the daemon will only support GPG-encrypted keyrings and will not load or
    /// create v1 GNOME password-based keyrings.
    ///
    /// Use the `oo7-cli migrate` command to convert existing v1 keyrings to GPG-encrypted
    /// format before enabling this option.
    pub disable_v1_keyrings: bool,
}

/// Configuration for the Login keyring
#[derive(Clone, Debug)]
pub struct LoginKeyringConfig {
    /// Enable GPG encryption for the Login keyring
    ///
    /// When enabled, the Login keyring will be encrypted with the specified GPG key instead of
    /// a password. This allows hardware tokens (like Yubikey) to be used for authentication.
    pub use_gpg: bool,
    /// GPG key ID to use for encrypting the Login keyring
    ///
    /// This should be the fingerprint or key ID of a GPG key. The key must be available in your
    /// GPG keyring.
    ///
    /// Example: "0x1234567890ABCDEF" or "your-email@example.com"
    pub gpg_key_id: Option<String>,
}

/// The configuration that holds where none is given: a password, and all kinds of keyrings.
pub open spec fn default_config() -> Config {
    Config {
        login_keyring: LoginKeyringConfig { use_gpg: false, gpg_key_id: None },
        disable_v1_keyrings: false,
    }
}

impl Default for Config {
    fn default() -> (config: Self)
        ensures
            config == default_config(),
    {
        Config { login_keyring: LoginKeyringConfig::default(), disable_v1_keyrings: false }
    }
}

impl Default for LoginKeyringConfig {
    fn default() -> (config: Self)
        ensures
            config == default_config().login_keyring,
    {
        LoginKeyringConfig { use_gpg: false, gpg_key_id: None }
    }
}

/// What is wrong with the text of a configuration file.
#[derive(Debug)]
pub struct ParseError {
    pub message: String,
}

/// Configuration errors
#[derive(Debug)]
pub enum ConfigError {
    /// I/O error reading config file
    Io(IoError),
    /// Error parsing TOML
    Parse(ParseError),
    /// Configuration validation error
    Validation(String),
}

/// What lies behind a configuration error.
pub enum ConfigErrorSource<'a> {
    Io(&'a IoError),
    Parse(&'a ParseError),
}

impl ConfigError {
    /// The error as it is shown.
    pub open spec fn shown(self) -> Seq<char> {
        match self {
            ConfigError::Io(e) => "I/O error: "@ + e.message@,
            ConfigError::Parse(e) => "Parse error: "@ + e.message@,
            ConfigError::Validation(message) => "Validation error: "@ + message@,
        }
    }

    /// Writes the error as it is shown.
    pub fn display(&self) -> (text: String)
        ensures
            text@ == self.shown(),
    {
        match self {
            ConfigError::Io(e) => {
                let mut text = "I/O error: ".to_owned();
                text.append(e.message.as_str());
                text
            },
            ConfigError::Parse(e) => {
                let mut text = "Parse error: ".to_owned();
                text.append(e.message.as_str());
                text
            },
            ConfigError::Validation(message) => {
                let mut text = "Validation error: ".to_owned();
                text.append(message.as_str());
                text
            },
        }
    }

    /// The error that this one was made of, where there is one to look into.
    pub fn source(&self) -> (source: Option<ConfigErrorSource<'_>>)
        ensures
            source == (match *self {
                ConfigError::Io(e) => Some(ConfigErrorSource::Io(&e)),
                ConfigError::Parse(e) => Some(ConfigErrorSource::Parse(&e)),
                ConfigError::Validation(_) => None,
            }),
    {
        match self {
            ConfigError::Io(e) => Some(ConfigErrorSource::Io(e)),
            ConfigError::Parse(e) => Some(ConfigErrorSource::Parse(e)),
            ConfigError::Validation(_) => None,
        }
    }
}

/// What came back from a configuration file.
pub enum ConfigFile {
    /// The file could not be read.
    Unreadable(IoError),
    /// The text is no configuration.
    Malformed(ParseError),
    /// The configuration in the file.
    Parsed(Config),
}

/// Where a configuration file is looked for: a file name below a directory.
pub struct ConfigLocation {
    pub directory: String,
    pub file: String,
}

/// Where the configuration file is looked for, given the values of `XDG_CONFIG_HOME` and
/// `HOME`: the first that is set counts.
pub fn standard_location(xdg_config_home: Option<String>, home: Option<String>) -> (location:
    Option<ConfigLocation>)
    ensures
        match (xdg_config_home, home) {
            (Some(xdg), _) => location matches Some(l) && l.directory == xdg && l.file@
                == "oo7-daemon/config.toml"@,
            (None, Some(dir)) => location matches Some(l) && l.directory == dir && l.file@
                == ".config/oo7-daemon/config.toml"@,
            (None, None) => location is None,
        },
{
    match xdg_config_home {
        Some(directory) => Some(
            ConfigLocation { directory, file: "oo7-daemon/config.toml".to_owned() },
        ),
        None => match home {
            Some(directory) => Some(
                ConfigLocation { directory, file: ".config/oo7-daemon/config.toml".to_owned() },
            ),
            None => None,
        },
    }
}

impl Config {
    /// Load configuration from a file, given what came back from it.
    pub fn load(file: ConfigFile) -> (outcome: Result<Config, ConfigError>)
        ensures
            outcome == (match file {
                ConfigFile::Unreadable(e) => Err(ConfigError::Io(e)),
                ConfigFile::Malformed(e) => Err(ConfigError::Parse(e)),
                ConfigFile::Parsed(config) => Ok(config),
            }),
    {
        match file {
            ConfigFile::Unreadable(e) => Err(ConfigError::Io(e)),
            ConfigFile::Malformed(e) => Err(ConfigError::Parse(e)),
            ConfigFile::Parsed(config) => Ok(config),
        }
    }

    /// The configuration from the standard location, given what came back from the file there,
    /// where there is such a location. Whatever stands in the way of the file, the default
    /// configuration takes its place.
    pub fn load_from_standard_locations(file: Option<ConfigFile>) -> (config: Config)
        ensures
            config == (match file {
                Some(ConfigFile::Parsed(c)) => c,
                _ => default_config(),
            }),
    {
        match file {
            Some(file) => match Config::load(file) {
                Ok(config) => config,
                Err(_) => Config::default(),
            },
            None => Config::default(),
        }
    }

    /// A configuration is valid unless it asks for GPG and names no key.
    pub open spec fn is_valid(self) -> bool {
        self.login_keyring.use_gpg ==> self.login_keyring.gpg_key_id is Some
    }

    /// Validate the configuration
    pub fn validate(&self) -> (outcome: Result<(), ConfigError>)
        ensures
            outcome is Ok <==> self.is_valid(),
            outcome matches Err(e) ==> (e matches ConfigError::Validation(text) && text@
                == "GPG encryption enabled but no GPG key ID specified"@),
    {
        if self.login_keyring.use_gpg && self.login_keyring.gpg_key_id.is_none() {
            return Err(
                ConfigError::Validation(
                    "GPG encryption enabled but no GPG key ID specified".to_owned(),
                ),
            );
        }
        Ok(())
    }
}

/// The default configuration is valid.
pub proof fn lemma_default_is_valid()
    ensures
        default_config().is_valid(),
{
}

} // verus!
