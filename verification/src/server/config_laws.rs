//! What a configuration is made of, and what is wrong with one.
use vstd::prelude::*;

use crate::io_error::IoError;
use crate::server::config::standard_location;
use crate::server::config::Config;
use crate::server::config::ConfigError;
use crate::server::config::ConfigErrorSource;
use crate::server::config::ConfigFile;
use crate::server::config::ConfigLocation;
use crate::server::config::LoginKeyringConfig;
use crate::server::config::ParseError;

verus! {

/// The configuration is the one that holds where none is given: no GPG, and all kinds of keyrings.
pub open spec fn is_plain(config: Config) -> bool {
    &&& !config.login_keyring.use_gpg && config.login_keyring.gpg_key_id is None
    &&& !config.disable_v1_keyrings
}

/// A configuration is what its file says. What stands in the way of a file is told, but at the
/// standard location the plain configuration takes its place.
pub proof fn a_configuration_is_what_its_file_says(
    config: Config,
    failure: IoError,
    malformed: ParseError,
    outcome: Result<Config, ConfigError>,
    loaded: Config,
    login: LoginKeyringConfig,
)
    ensures
        call_ensures(Config::load, (ConfigFile::Parsed(config),), outcome) ==> outcome == Ok::<
            Config,
            ConfigError,
        >(config),
        call_ensures(Config::load, (ConfigFile::Unreadable(failure),), outcome) ==> outcome == Err::<
            Config,
            ConfigError,
        >(ConfigError::Io(failure)),
        call_ensures(Config::load, (ConfigFile::Malformed(malformed),), outcome) ==> outcome
            == Err::<Config, ConfigError>(ConfigError::Parse(malformed)),
        call_ensures(
            Config::load_from_standard_locations,
            (Some(ConfigFile::Parsed(config)),),
            loaded,
        ) ==> loaded == config,
        call_ensures(
            Config::load_from_standard_locations,
            (Some(ConfigFile::Unreadable(failure)),),
            loaded,
        ) ==> is_plain(loaded),
        call_ensures(
            Config::load_from_standard_locations,
            (Some(ConfigFile::Malformed(malformed)),),
            loaded,
        ) ==> is_plain(loaded),
        call_ensures(Config::load_from_standard_locations, (None,), loaded) ==> is_plain(loaded),
        call_ensures(<Config as Default>::default, (), loaded) ==> is_plain(loaded),
        call_ensures(<LoginKeyringConfig as Default>::default, (), login) ==> !login.use_gpg
            && login.gpg_key_id is None,
{
}

/// A configuration that asks for GPG has to name a key, and that is all that can be wrong with it.
pub proof fn a_configuration_for_gpg_names_a_key(
    config: Config,
    outcome: Result<(), ConfigError>,
)
    requires
        call_ensures(Config::validate, (&config,), outcome),
    ensures
        outcome is Err <==> config.login_keyring.use_gpg && config.login_keyring.gpg_key_id is None,
        outcome matches Err(e) ==> (e matches ConfigError::Validation(text) && text@
            == "GPG encryption enabled but no GPG key ID specified"@),
{
}

/// The configuration is looked for below the directory for configurations, and otherwise below the
/// home.
pub proof fn a_configuration_is_looked_for_at_home(
    xdg: String,
    home: Option<String>,
    dir: String,
    location: Option<ConfigLocation>,
)
    ensures
        call_ensures(standard_location, (Some(xdg), home), location) ==> (location matches Some(l)
            && l.directory@ == xdg@ && l.file@ == "oo7-daemon/config.toml"@),
        call_ensures(standard_location, (None, Some(dir)), location) ==> (location matches Some(l)
            && l.directory@ == dir@ && l.file@ == ".config/oo7-daemon/config.toml"@),
        call_ensures(standard_location, (None, None), location) ==> location is None,
{
}

/// An error is shown with its kind and its words, and leads back to what it was made of.
pub proof fn configuration_errors_are_shown(
    error: ConfigError,
    text: String,
    source: Option<ConfigErrorSource<'_>>,
)
    ensures
        call_ensures(ConfigError::display, (&error,), text) ==> text@ == (match error {
            ConfigError::Io(e) => "I/O error: "@ + e.message@,
            ConfigError::Parse(e) => "Parse error: "@ + e.message@,
            ConfigError::Validation(message) => "Validation error: "@ + message@,
        }),
        call_ensures(ConfigError::source, (&error,), source) ==> match (error, source) {
            (ConfigError::Io(e), Some(ConfigErrorSource::Io(s))) => *s == e,
            (ConfigError::Parse(e), Some(ConfigErrorSource::Parse(s))) => *s == e,
            (ConfigError::Validation(_), None) => true,
            _ => false,
        },
{
}

} // verus!
