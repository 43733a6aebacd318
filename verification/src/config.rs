//! The exporter's configuration and what can be wrong with it.

use vstd::prelude::*;
use crate::address::{address_of, address_text, IpAddress};
use crate::address_laws::{
    canonical_texts_are_not_blank, normalized, normalizing_is_idempotent,
    reading_gives_complete_addresses, reading_undoes_writing,
};
use crate::log_filter::{
    bare_filters_are_checkable, check_log_filter, checkable, is_bare, is_checkable,
    log_filter_problem, problem_of,
};
use crate::text::{blank, is_blank};

verus! {

/// The values of the environment variables, as far as they are set.
#[derive(Debug)]
pub struct RawConfig {
    pub tapo_username: Option<String>,
    pub tapo_password: Option<String>,
    pub tapo_hub_ip: Option<String>,
    pub rust_log: Option<String>,
}

/// A valid configuration.
#[derive(Debug, Clone)]
pub struct Config {
    pub tapo_username: String,
    pub tapo_password: String,
    pub tapo_hub_ip: String,
    pub rust_log: String,
}

/// Why the environment could not be read.
#[derive(Debug)]
pub enum EnvironmentError {
    MissingValue(&'static str),
    Custom(String),
}

/// Why there is no valid configuration.
#[derive(Debug)]
pub enum ConfigError {
    Environment(EnvironmentError),
    Missing(&'static str),
    Empty(&'static str),
    InvalidHubIp(String),
    InvalidLogFilter(String),
}

/// How far making a configuration got.
#[derive(Debug)]
pub enum ConfigAttempt {
    /// There is a configuration, or a reason why there is none.
    Settled(Result<Config, ConfigError>),
    /// All is well but for the log filter, which would be cut inside a character
    /// if it were checked.
    FilterUnchecked(Config),
}

/// The texts of the environment variables.
pub struct RawValues {
    pub username: Option<Seq<char>>,
    pub password: Option<Seq<char>>,
    pub hub_ip: Option<Seq<char>>,
    pub log_filter: Option<Seq<char>>,
}

/// The texts of a configuration.
pub struct Values {
    pub username: Seq<char>,
    pub password: Seq<char>,
    pub hub_ip: Seq<char>,
    pub log_filter: Seq<char>,
}

/// The texts of an environment error.
pub enum EnvironmentFailure {
    MissingValue(Seq<char>),
    Custom(Seq<char>),
}

/// The texts of a configuration error.
pub enum Failure {
    Environment(EnvironmentFailure),
    Missing(Seq<char>),
    Empty(Seq<char>),
    InvalidHubIp(Seq<char>),
    InvalidLogFilter(Seq<char>),
}

/// The text of a variable, if it is set.
pub open spec fn text_of(value: Option<String>) -> Option<Seq<char>> {
    match value {
        Some(text) => Some(text@),
        None => None,
    }
}

impl View for RawConfig {
    type V = RawValues;

    open spec fn view(&self) -> RawValues {
        RawValues {
            username: text_of(self.tapo_username),
            password: text_of(self.tapo_password),
            hub_ip: text_of(self.tapo_hub_ip),
            log_filter: text_of(self.rust_log),
        }
    }
}

impl View for Config {
    type V = Values;

    open spec fn view(&self) -> Values {
        Values {
            username: self.tapo_username@,
            password: self.tapo_password@,
            hub_ip: self.tapo_hub_ip@,
            log_filter: self.rust_log@,
        }
    }
}

impl View for EnvironmentError {
    type V = EnvironmentFailure;

    open spec fn view(&self) -> EnvironmentFailure {
        match self {
            EnvironmentError::MissingValue(field) => EnvironmentFailure::MissingValue(field@),
            EnvironmentError::Custom(message) => EnvironmentFailure::Custom(message@),
        }
    }
}

impl View for ConfigError {
    type V = Failure;

    open spec fn view(&self) -> Failure {
        match self {
            ConfigError::Environment(error) => Failure::Environment(error@),
            ConfigError::Missing(name) => Failure::Missing(name@),
            ConfigError::Empty(name) => Failure::Empty(name@),
            ConfigError::InvalidHubIp(value) => Failure::InvalidHubIp(value@),
            ConfigError::InvalidLogFilter(message) => Failure::InvalidLogFilter(message@),
        }
    }
}

/// The texts of an attempt to make a configuration.
pub open spec fn outcome(result: Result<Config, ConfigError>) -> Result<Values, Failure> {
    match result {
        Ok(config) => Ok(config@),
        Err(error) => Err(error@),
    }
}

/// What a required variable has to hold: something besides white space.
pub open spec fn required(value: Option<Seq<char>>, name: Seq<char>) -> Result<Seq<char>, Failure> {
    match value {
        None => Err(Failure::Missing(name)),
        Some(text) => if is_blank(text) {
            Err(Failure::Empty(name))
        } else {
            Ok(text)
        },
    }
}

/// The log filter in force: `info`, unless the variable is set.
pub open spec fn chosen_filter(raw: RawValues) -> Seq<char> {
    match raw.log_filter {
        Some(text) => text,
        None => "info"@,
    }
}

/// The configuration that the variables make up before the log filter is
/// checked, or the first problem among user name, password and hub address.
pub open spec fn values_of(raw: RawValues) -> Result<Values, Failure> {
    match required(raw.username, "TAPO_USERNAME"@) {
        Err(failure) => Err(failure),
        Ok(username) => match required(raw.password, "TAPO_PASSWORD"@) {
            Err(failure) => Err(failure),
            Ok(password) => match required(raw.hub_ip, "TAPO_HUB_IP"@) {
                Err(failure) => Err(failure),
                Ok(hub_ip) => match address_of(hub_ip) {
                    None => Err(Failure::InvalidHubIp(hub_ip)),
                    Some(address) => Ok(
                        Values {
                            username,
                            password,
                            hub_ip: address_text(address),
                            log_filter: chosen_filter(raw),
                        },
                    ),
                },
            },
        },
    }
}

/// The configuration once the log filter was checked; `problem` is what is
/// wrong with it, if anything.
pub open spec fn accepted(values: Values, problem: Option<Seq<char>>) -> Result<Values, Failure> {
    match problem {
        Some(message) => Err(Failure::InvalidLogFilter(message)),
        None => Ok(values),
    }
}

/// The configuration that the variables make up, or the first problem.
pub open spec fn config_of(raw: RawValues, problem: Option<Seq<char>>) -> Result<Values, Failure> {
    match values_of(raw) {
        Err(failure) => Err(failure),
        Ok(values) => accepted(values, problem),
    }
}

/// What an environment error says.
pub open spec fn environment_message(failure: EnvironmentFailure) -> Seq<char> {
    match failure {
        EnvironmentFailure::MissingValue(field) => "missing value for field "@ + field,
        EnvironmentFailure::Custom(message) => message,
    }
}

/// What a configuration error says.
pub open spec fn failure_message(failure: Failure) -> Seq<char> {
    match failure {
        Failure::Environment(error) => "failed to parse environment: "@ + environment_message(error),
        Failure::Missing(name) => name + " is required"@,
        Failure::Empty(name) => name + " must not be empty"@,
        Failure::InvalidHubIp(value) => "TAPO_HUB_IP is not a valid IP address: "@ + value,
        Failure::InvalidLogFilter(message) => "RUST_LOG is invalid: "@ + message,
    }
}

/// Whether a configuration keeps what the variables hold: user name and password
/// as they are, the hub address in its canonical form, and the log filter, or
/// `info` where none is set.
pub open spec fn is_made_of(config: Config, raw: RawConfig) -> bool {
    &&& raw.tapo_username matches Some(username)
    &&& raw.tapo_password matches Some(password)
    &&& raw.tapo_hub_ip matches Some(hub_ip)
    &&& config.tapo_username@ == username@
    &&& config.tapo_password@ == password@
    &&& normalized(hub_ip@) == Some(config.tapo_hub_ip@)
    &&& raw.rust_log matches Some(filter) ==> config.rust_log@ == filter@
    &&& raw.rust_log is None ==> config.rust_log@ == "info"@
}

/// Takes the value of a required variable, which must be set and hold
/// something besides white space.
pub fn required_value(value: Option<String>, name: &'static str) -> (result: Result<
    String,
    ConfigError,
>)
    ensures
        match result {
            Ok(text) => required(text_of(value), name@) == Ok::<Seq<char>, Failure>(text@),
            Err(error) => required(text_of(value), name@) == Err::<Seq<char>, Failure>(error@),
        },
        value is None ==> (result matches Err(ConfigError::Missing(missing)) && missing@ == name@),
        value matches Some(text) ==> {
            &&& is_blank(text@) ==> (result matches Err(ConfigError::Empty(empty)) && empty@
                == name@)
            &&& !is_blank(text@) ==> (result matches Ok(kept) && kept@ == text@)
        },
{
    match value {
        None => Err(ConfigError::Missing(name)),
        Some(text) => {
            if blank(text.as_str()) {
                Err(ConfigError::Empty(name))
            } else {
                Ok(text)
            }
        },
    }
}

impl Config {
    /// Makes a configuration of what was read from the environment, as far as
    /// its log filter can be checked.
    pub fn from_env(read: Result<RawConfig, EnvironmentError>) -> (attempt: ConfigAttempt)
        ensures
            match read {
                Err(error) => attempt matches ConfigAttempt::Settled(result) && outcome(result)
                    == Err::<Values, Failure>(Failure::Environment(error@)),
                Ok(raw) => match attempt {
                    ConfigAttempt::Settled(result) => {
                        &&& values_of(raw@) is Ok ==> is_checkable(chosen_filter(raw@))
                        &&& outcome(result) == config_of(
                            raw@,
                            log_filter_problem(chosen_filter(raw@)),
                        )
                        &&& is_bare(chosen_filter(raw@)) ==> outcome(result) == values_of(raw@)
                    },
                    ConfigAttempt::FilterUnchecked(config) => {
                        &&& !is_checkable(chosen_filter(raw@))
                        &&& values_of(raw@) == Ok::<Values, Failure>(config@)
                    },
                },
            },
            read matches Err(error) ==> attempt == ConfigAttempt::Settled(
                Err(ConfigError::Environment(error)),
            ),
            read matches Ok(raw) ==> match attempt {
                ConfigAttempt::Settled(Ok(config)) => is_made_of(config, raw),
                ConfigAttempt::FilterUnchecked(config) => is_made_of(config, raw),
                ConfigAttempt::Settled(Err(error)) => !(error is Environment),
            },
    {
        let raw = match read {
            Ok(raw) => raw,
            Err(error) => {
                return ConfigAttempt::Settled(Err(ConfigError::Environment(error)));
            },
        };
        let can_check = match &raw.rust_log {
            Some(filter) => checkable(filter.as_str()),
            None => true,
        };
        proof {
            lemma_info_is_bare();
            bare_filters_are_checkable("info"@);
        }
        if can_check {
            return ConfigAttempt::Settled(Config::try_from_raw(raw));
        }
        match Config::from_values(raw) {
            Ok(config) => ConfigAttempt::FilterUnchecked(config),
            Err(error) => ConfigAttempt::Settled(Err(error)),
        }
    }

    /// Makes a configuration of the variables' values and checks its log
    /// filter. A filter of bare level names and targets, such as the default,
    /// never stands in the way.
    pub fn try_from_raw(raw: RawConfig) -> (result: Result<Config, ConfigError>)
        requires
            values_of(raw@) is Ok ==> (raw@.log_filter matches Some(filter) ==> is_checkable(filter)),
        ensures
            outcome(result) == config_of(raw@, log_filter_problem(chosen_filter(raw@))),
            is_bare(chosen_filter(raw@)) ==> outcome(result) == values_of(raw@),
            raw@.log_filter is None ==> outcome(result) == values_of(raw@),
            result matches Ok(config) ==> {
                &&& raw.tapo_username matches Some(username)
                &&& raw.tapo_password matches Some(password)
                &&& raw.tapo_hub_ip matches Some(hub_ip)
                &&& config.tapo_username@ == username@
                &&& config.tapo_password@ == password@
                &&& normalized(hub_ip@) == Some(config.tapo_hub_ip@)
                &&& raw.rust_log matches Some(filter) ==> config.rust_log@ == filter@
                &&& raw.rust_log is None ==> config.rust_log@ == "info"@
            },
            !(result matches Err(ConfigError::Environment(_))),
            result matches Err(ConfigError::InvalidHubIp(value)) ==> (
            raw.tapo_hub_ip matches Some(hub_ip) && value@ == hub_ip@ && address_of(
                hub_ip@,
            ) is None),
            result matches Err(ConfigError::InvalidLogFilter(message)) ==> log_filter_problem(
                match raw.rust_log {
                    Some(filter) => filter@,
                    None => "info"@,
                },
            ) == Some(message@),
    {
        proof {
            lemma_info_is_bare();
            bare_filters_are_checkable("info"@);
        }
        let config = match Config::from_values(raw) {
            Ok(config) => config,
            Err(error) => {
                return Err(error);
            },
        };
        let checked = check_log_filter(config.rust_log.as_str());
        config.accept_log_filter(checked)
    }

    /// Makes a configuration of the variables' values without checking its log
    /// filter.
    pub fn from_values(raw: RawConfig) -> (result: Result<Config, ConfigError>)
        ensures
            outcome(result) == values_of(raw@),
            result matches Ok(config) ==> {
                &&& raw.tapo_username matches Some(username)
                &&& raw.tapo_password matches Some(password)
                &&& raw.tapo_hub_ip matches Some(hub_ip)
                &&& config.tapo_username@ == username@
                &&& config.tapo_password@ == password@
                &&& normalized(hub_ip@) == Some(config.tapo_hub_ip@)
                &&& raw.rust_log matches Some(filter) ==> config.rust_log@ == filter@
                &&& raw.rust_log is None ==> config.rust_log@ == "info"@
            },
            result matches Err(ConfigError::InvalidHubIp(value)) ==> (
            raw.tapo_hub_ip matches Some(hub_ip) && value@ == hub_ip@ && address_of(
                hub_ip@,
            ) is None),
            !(result matches Err(ConfigError::InvalidLogFilter(_))),
            !(result matches Err(ConfigError::Environment(_))),
    {
        let tapo_username = match required_value(raw.tapo_username, "TAPO_USERNAME") {
            Ok(text) => text,
            Err(error) => {
                return Err(error);
            },
        };
        let tapo_password = match required_value(raw.tapo_password, "TAPO_PASSWORD") {
            Ok(text) => text,
            Err(error) => {
                return Err(error);
            },
        };
        let tapo_hub_ip = match required_value(raw.tapo_hub_ip, "TAPO_HUB_IP") {
            Ok(text) => text,
            Err(error) => {
                return Err(error);
            },
        };
        let tapo_hub_ip = match IpAddress::parse(tapo_hub_ip.as_str()) {
            Some(address) => address.text(),
            None => {
                return Err(ConfigError::InvalidHubIp(tapo_hub_ip));
            },
        };
        let rust_log = match raw.rust_log {
            Some(text) => text,
            None => "info".to_owned(),
        };
        Ok(Config { tapo_username, tapo_password, tapo_hub_ip, rust_log })
    }

    /// Keeps the configuration if its log filter was found valid.
    pub fn accept_log_filter(self, checked: Result<(), String>) -> (result: Result<
        Config,
        ConfigError,
    >)
        ensures
            outcome(result) == accepted(self@, problem_of(checked)),
            match checked {
                Ok(_) => result == Ok::<Config, ConfigError>(self),
                Err(message) => result == Err::<Config, ConfigError>(
                    ConfigError::InvalidLogFilter(message),
                ),
            },
    {
        match checked {
            Ok(_) => Ok(self),
            Err(message) => Err(ConfigError::InvalidLogFilter(message)),
        }
    }
}

impl EnvironmentError {
    /// What the error says.
    pub fn message(&self) -> (text: String)
        ensures
            text@ == environment_message(self@),
            match self {
                EnvironmentError::MissingValue(field) => text@ == "missing value for field "@
                    + field@,
                EnvironmentError::Custom(message) => text@ == message@,
            },
    {
        match self {
            EnvironmentError::MissingValue(field) => "missing value for field ".to_owned().concat(
                field,
            ),
            EnvironmentError::Custom(message) => message.clone(),
        }
    }
}

impl ConfigError {
    /// What the error says.
    pub fn message(&self) -> (text: String)
        ensures
            text@ == failure_message(self@),
            match self {
                ConfigError::Environment(EnvironmentError::MissingValue(field)) => text@
                    == "failed to parse environment: "@ + ("missing value for field "@ + field@),
                ConfigError::Environment(EnvironmentError::Custom(message)) => text@
                    == "failed to parse environment: "@ + message@,
                ConfigError::Missing(name) => text@ == name@ + " is required"@,
                ConfigError::Empty(name) => text@ == name@ + " must not be empty"@,
                ConfigError::InvalidHubIp(value) => text@
                    == "TAPO_HUB_IP is not a valid IP address: "@ + value@,
                ConfigError::InvalidLogFilter(message) => text@ == "RUST_LOG is invalid: "@
                    + message@,
            },
    {
        match self {
            ConfigError::Environment(error) => "failed to parse environment: ".to_owned().concat(
                error.message().as_str(),
            ),
            ConfigError::Missing(name) => (*name).to_owned().concat(" is required"),
            ConfigError::Empty(name) => (*name).to_owned().concat(" must not be empty"),
            ConfigError::InvalidHubIp(
                value,
            ) => "TAPO_HUB_IP is not a valid IP address: ".to_owned().concat(value.as_str()),
            ConfigError::InvalidLogFilter(message) => "RUST_LOG is invalid: ".to_owned().concat(
                message.as_str(),
            ),
        }
    }

    /// The error underneath: the environment's, where that could not be read.
    pub fn source(&self) -> (source: Option<&EnvironmentError>)
        ensures
            source == (match self {
                ConfigError::Environment(error) => Some(error),
                _ => None,
            }),
    {
        match self {
            ConfigError::Environment(error) => Some(error),
            _ => None,
        }
    }
}

/// The log filter to start with: the configured one, or `info` where there is
/// no valid configuration.
pub fn startup_filter(result: &Result<Config, ConfigError>) -> (filter: String)
    ensures
        filter@ == (match outcome(*result) {
            Ok(values) => values.log_filter,
            Err(_) => "info"@,
        }),
        match result {
            Ok(config) => filter@ == config.rust_log@,
            Err(_) => filter@ == "info"@,
        },
{
    match result {
        Ok(config) => config.rust_log.clone(),
        Err(_) => "info".to_owned(),
    }
}

/// The default log filter is a bare level name.
proof fn lemma_info_is_bare()
    ensures
        is_bare("info"@),
{
    reveal_strlit("info");
}

/// No error depends on the password, beyond whether there is one: another
/// password in its place leads to the same error, or to a configuration that
/// differs in the password alone.
pub proof fn errors_do_not_reveal_the_password(
    raw: RawValues,
    other: Seq<char>,
    problem: Option<Seq<char>>,
)
    requires
        raw.password matches Some(password) && !is_blank(password),
        !is_blank(other),
    ensures
        config_of(RawValues { password: Some(other), ..raw }, problem) == match config_of(
            raw,
            problem,
        ) {
            Ok(values) => Ok::<Values, Failure>(Values { password: other, ..values }),
            Err(failure) => Err::<Values, Failure>(failure),
        },
{
}

/// The hub address of a valid configuration is in its canonical form.
pub proof fn hub_address_is_canonical(raw: RawValues, problem: Option<Seq<char>>)
    ensures
        config_of(raw, problem) matches Ok(values) ==> normalized(values.hub_ip) == Some(
            values.hub_ip,
        ),
{
    if let Some(hub_ip) = raw.hub_ip {
        normalizing_is_idempotent(hub_ip);
    }
}

/// A valid configuration keeps what was set: user name, password and log filter
/// as they are, and the hub address as the text of the address that was given.
/// Without a log filter, `info` is in force.
pub proof fn valid_configurations_keep_what_was_set(raw: RawValues, problem: Option<Seq<char>>)
    ensures
        config_of(raw, problem) matches Ok(values) ==> {
            &&& raw.username == Some(values.username)
            &&& raw.password == Some(values.password)
            &&& raw.hub_ip matches Some(hub_ip)
            &&& address_of(hub_ip) matches Some(address)
            &&& values.hub_ip == address_text(address)
            &&& address_of(values.hub_ip) == Some(address)
            &&& raw.log_filter matches Some(filter) ==> values.log_filter == filter
            &&& raw.log_filter is None ==> values.log_filter == "info"@
        },
{
    if let Some(hub_ip) = raw.hub_ip {
        if let Some(address) = address_of(hub_ip) {
            reading_gives_complete_addresses(hub_ip);
            reading_undoes_writing(address);
        }
    }
}

/// A configuration is valid just where user name, password and hub address are
/// set and hold something besides white space, the hub address is one, and
/// nothing is wrong with the log filter.
pub proof fn what_makes_a_configuration_valid(raw: RawValues, problem: Option<Seq<char>>)
    ensures
        config_of(raw, problem) is Ok <==> {
            &&& raw.username matches Some(username)
            &&& raw.password matches Some(password)
            &&& raw.hub_ip matches Some(hub_ip)
            &&& !is_blank(username)
            &&& !is_blank(password)
            &&& !is_blank(hub_ip)
            &&& address_of(hub_ip) is Some
            &&& problem is None
        },
{
}

/// The first problem is reported: the user name's before the password's, that
/// before the hub address's, and the log filter's last. A variable that is not
/// set is missing, and one that holds nothing but white space is empty.
pub proof fn the_first_problem_is_reported(raw: RawValues, problem: Option<Seq<char>>)
    ensures
        ({
            let result = config_of(raw, problem);
            let named = raw.username matches Some(text) && !is_blank(text);
            let known = named && (raw.password matches Some(text) && !is_blank(text));
            let placed = known && (raw.hub_ip matches Some(text) && !is_blank(text));
            &&& raw.username is None ==> result == Err::<Values, Failure>(
                Failure::Missing("TAPO_USERNAME"@),
            )
            &&& raw.username is Some && !named ==> result == Err::<Values, Failure>(
                Failure::Empty("TAPO_USERNAME"@),
            )
            &&& named && raw.password is None ==> result == Err::<Values, Failure>(
                Failure::Missing("TAPO_PASSWORD"@),
            )
            &&& named && raw.password is Some && !known ==> result == Err::<Values, Failure>(
                Failure::Empty("TAPO_PASSWORD"@),
            )
            &&& known && raw.hub_ip is None ==> result == Err::<Values, Failure>(
                Failure::Missing("TAPO_HUB_IP"@),
            )
            &&& known && raw.hub_ip is Some && !placed ==> result == Err::<Values, Failure>(
                Failure::Empty("TAPO_HUB_IP"@),
            )
            &&& placed && address_of(raw.hub_ip->0) is None ==> result == Err::<Values, Failure>(
                Failure::InvalidHubIp(raw.hub_ip->0),
            )
            &&& placed && address_of(raw.hub_ip->0) is Some ==> (problem matches Some(message)
                ==> result == Err::<Values, Failure>(Failure::InvalidLogFilter(message)))
        }),
{
}

/// What an error says: the variable and what is wrong with it, with the value of
/// a hub address that is none, and with what is wrong with a log filter.
pub proof fn errors_name_the_variable(name: Seq<char>, text: Seq<char>)
    ensures
        failure_message(Failure::Missing(name)) == name + " is required"@,
        failure_message(Failure::Empty(name)) == name + " must not be empty"@,
        failure_message(Failure::InvalidHubIp(text)) == "TAPO_HUB_IP is not a valid IP address: "@
            + text,
        failure_message(Failure::InvalidLogFilter(text)) == "RUST_LOG is invalid: "@ + text,
        failure_message(Failure::Environment(EnvironmentFailure::Custom(text)))
            == "failed to parse environment: "@ + text,
        failure_message(Failure::Environment(EnvironmentFailure::MissingValue(name)))
            == "failed to parse environment: "@ + ("missing value for field "@ + name),
{
}

/// The variables that a configuration's values would be read from.
pub open spec fn raw_of(values: Values) -> RawValues {
    RawValues {
        username: Some(values.username),
        password: Some(values.password),
        hub_ip: Some(values.hub_ip),
        log_filter: Some(values.log_filter),
    }
}

/// The values of a valid configuration make up the same configuration again,
/// with the same log filter to check.
pub proof fn valid_values_stay_valid(raw: RawValues)
    ensures
        config_of(raw, log_filter_problem(chosen_filter(raw))) matches Ok(values) ==> {
            &&& chosen_filter(raw_of(values)) == chosen_filter(raw)
            &&& config_of(raw_of(values), log_filter_problem(chosen_filter(raw_of(values)))) == Ok::<
                Values,
                Failure,
            >(values)
        },
{
    if let Some(hub_ip) = raw.hub_ip {
        if let Some(address) = address_of(hub_ip) {
            reading_gives_complete_addresses(hub_ip);
            reading_undoes_writing(address);
            canonical_texts_are_not_blank(address);
        }
    }
}

} // verus!
