//! Making a configuration of environment variables.

use std::collections::HashMap;

use tapo_exporter::config::{
    required_value, startup_filter, Config, ConfigAttempt, ConfigError, EnvironmentError, RawConfig,
};
use tapo_exporter::log_filter::checkable;

fn raw_config() -> RawConfig {
    RawConfig {
        tapo_username: Some("user@example.com".to_owned()),
        tapo_password: Some("secret".to_owned()),
        tapo_hub_ip: Some("192.168.1.100".to_owned()),
        rust_log: None,
    }
}

#[test]
fn parses_required_values_and_defaults_log_filter() {
    let mut variables: HashMap<String, String> = envy::from_iter([
        ("TAPO_USERNAME".to_owned(), "user@example.com".to_owned()),
        ("TAPO_PASSWORD".to_owned(), "secret".to_owned()),
        ("TAPO_HUB_IP".to_owned(), "192.168.1.100".to_owned()),
    ])
    .expect("environment should deserialize");
    let raw = RawConfig {
        tapo_username: variables.remove("tapo_username"),
        tapo_password: variables.remove("tapo_password"),
        tapo_hub_ip: variables.remove("tapo_hub_ip"),
        rust_log: variables.remove("rust_log"),
    };
    let config = Config::try_from_raw(raw).expect("config should be valid");

    assert_eq!(config.tapo_username, "user@example.com");
    assert_eq!(config.tapo_password, "secret");
    assert_eq!(config.tapo_hub_ip, "192.168.1.100");
    assert_eq!(config.rust_log, "info");
}

#[test]
fn normalizes_valid_ipv6_addresses() {
    let mut raw = raw_config();
    raw.tapo_hub_ip = Some("2001:0db8:0:0:0:0:0:1".to_owned());

    let config = Config::try_from_raw(raw).expect("config should be valid");

    assert_eq!(config.tapo_hub_ip, "2001:db8::1");
}

#[test]
fn rejects_missing_required_values() {
    let mut raw = raw_config();
    raw.tapo_username = None;
    assert!(matches!(
        Config::try_from_raw(raw),
        Err(ConfigError::Missing("TAPO_USERNAME"))
    ));

    let mut raw = raw_config();
    raw.tapo_password = None;
    assert!(matches!(
        Config::try_from_raw(raw),
        Err(ConfigError::Missing("TAPO_PASSWORD"))
    ));

    let mut raw = raw_config();
    raw.tapo_hub_ip = None;
    assert!(matches!(
        Config::try_from_raw(raw),
        Err(ConfigError::Missing("TAPO_HUB_IP"))
    ));
}

#[test]
fn rejects_empty_required_values() {
    let mut raw = raw_config();
    raw.tapo_password = Some("  \t".to_owned());

    assert!(matches!(
        Config::try_from_raw(raw),
        Err(ConfigError::Empty("TAPO_PASSWORD"))
    ));

    let mut raw = raw_config();
    raw.tapo_username = Some("  \t".to_owned());
    assert!(matches!(
        Config::try_from_raw(raw),
        Err(ConfigError::Empty("TAPO_USERNAME"))
    ));

    let mut raw = raw_config();
    raw.tapo_hub_ip = Some("  \t".to_owned());
    assert!(matches!(
        Config::try_from_raw(raw),
        Err(ConfigError::Empty("TAPO_HUB_IP"))
    ));
}

#[test]
fn rejects_invalid_hub_ip() {
    let mut raw = raw_config();
    raw.tapo_hub_ip = Some("hub.local".to_owned());

    assert!(matches!(
        Config::try_from_raw(raw),
        Err(ConfigError::InvalidHubIp(value)) if value == "hub.local"
    ));
}

#[test]
fn rejects_invalid_log_filter() {
    let mut raw = raw_config();
    raw.rust_log = Some("=".to_owned());

    assert!(matches!(
        Config::try_from_raw(raw),
        Err(ConfigError::InvalidLogFilter(_))
    ));
}

#[test]
fn configuration_errors_do_not_include_passwords() {
    let mut raw = raw_config();
    raw.tapo_hub_ip = Some("not-an-ip".to_owned());
    let error = Config::try_from_raw(raw).expect_err("config should be invalid");

    assert!(!error.message().contains("secret"));
}

#[test]
fn another_password_leads_to_the_same_error() {
    for password in ["secret", "TAPO_HUB_IP", "not-an-ip", " x "] {
        let mut raw = raw_config();
        raw.tapo_password = Some(password.to_owned());
        raw.tapo_hub_ip = Some("not-an-ip".to_owned());
        let error = Config::try_from_raw(raw).expect_err("config should be invalid");
        assert_eq!(
            error.message(),
            "TAPO_HUB_IP is not a valid IP address: not-an-ip"
        );
    }
}

#[test]
fn the_first_problem_is_reported() {
    let mut raw = raw_config();
    raw.tapo_username = Some("\u{3000}\u{a0}\n".to_owned());
    raw.tapo_password = None;
    raw.tapo_hub_ip = Some("hub.local".to_owned());
    raw.rust_log = Some("=".to_owned());
    assert!(matches!(
        Config::try_from_raw(raw),
        Err(ConfigError::Empty("TAPO_USERNAME"))
    ));

    let mut raw = raw_config();
    raw.tapo_password = None;
    raw.tapo_hub_ip = Some("hub.local".to_owned());
    assert!(matches!(
        Config::try_from_raw(raw),
        Err(ConfigError::Missing("TAPO_PASSWORD"))
    ));

    let mut raw = raw_config();
    raw.tapo_hub_ip = Some(" 192.168.1.100".to_owned());
    raw.rust_log = Some("=".to_owned());
    assert!(matches!(
        Config::try_from_raw(raw),
        Err(ConfigError::InvalidHubIp(value)) if value == " 192.168.1.100"
    ));
}

#[test]
fn values_are_kept_with_their_white_space() {
    assert!(matches!(
        required_value(Some(" user ".to_owned()), "TAPO_USERNAME"),
        Ok(text) if text == " user "
    ));
    assert!(matches!(
        required_value(Some(String::new()), "TAPO_USERNAME"),
        Err(ConfigError::Empty("TAPO_USERNAME"))
    ));
    assert!(matches!(
        required_value(Some("\u{200b}".to_owned()), "TAPO_USERNAME"),
        Ok(text) if text == "\u{200b}"
    ));
}

#[test]
fn every_white_space_character_is_blank() {
    let white = "\t\n\u{b}\u{c}\r \u{85}\u{a0}\u{1680}\u{2000}\u{2001}\u{2002}\u{2003}\u{2004}\
        \u{2005}\u{2006}\u{2007}\u{2008}\u{2009}\u{200a}\u{2028}\u{2029}\u{202f}\u{205f}\u{3000}";
    assert!(white.trim().is_empty());
    assert!(matches!(
        required_value(Some(white.to_owned()), "TAPO_PASSWORD"),
        Err(ConfigError::Empty("TAPO_PASSWORD"))
    ));
}

#[test]
fn errors_say_what_is_wrong() {
    let messages = [
        (
            ConfigError::Environment(EnvironmentError::MissingValue("rust_log")),
            "failed to parse environment: missing value for field rust_log",
        ),
        (
            ConfigError::Environment(EnvironmentError::Custom("whoops".to_owned())),
            "failed to parse environment: whoops",
        ),
        (ConfigError::Missing("TAPO_USERNAME"), "TAPO_USERNAME is required"),
        (ConfigError::Empty("TAPO_PASSWORD"), "TAPO_PASSWORD must not be empty"),
        (
            ConfigError::InvalidHubIp("hub.local".to_owned()),
            "TAPO_HUB_IP is not a valid IP address: hub.local",
        ),
        (
            ConfigError::InvalidLogFilter("bad".to_owned()),
            "RUST_LOG is invalid: bad",
        ),
    ];
    for (error, message) in messages {
        assert_eq!(error.message(), message);
    }
}

#[test]
fn environment_errors_read_as_those_of_envy() {
    assert_eq!(
        EnvironmentError::MissingValue("foo_bar").message(),
        envy::Error::MissingValue("foo_bar").to_string()
    );
    assert_eq!(
        EnvironmentError::Custom("whoops".to_owned()).message(),
        envy::Error::Custom("whoops".to_owned()).to_string()
    );
}

#[test]
fn only_environment_errors_have_a_source() {
    let error = ConfigError::Environment(EnvironmentError::MissingValue("rust_log"));
    assert!(matches!(
        error.source(),
        Some(EnvironmentError::MissingValue("rust_log"))
    ));
    assert!(ConfigError::Missing("TAPO_USERNAME").source().is_none());
    assert!(ConfigError::Empty("TAPO_USERNAME").source().is_none());
    assert!(ConfigError::InvalidHubIp(String::new()).source().is_none());
    assert!(ConfigError::InvalidLogFilter(String::new()).source().is_none());
}

#[test]
fn log_filters_are_checked_by_the_subscriber() {
    for filter in [
        "",
        "info",
        "OFF",
        "tapo=debug,hyper=warn",
        "a-b,c::d",
        "[span{field=1}]=trace",
        " info",
    ] {
        let mut raw = raw_config();
        raw.rust_log = Some(filter.to_owned());
        let config = Config::try_from_raw(raw).expect("config should be valid");
        assert_eq!(config.rust_log, filter);
    }
    let mut raw = raw_config();
    raw.rust_log = Some("info,=".to_owned());
    match Config::try_from_raw(raw) {
        Err(error) => assert_eq!(error.message(), "RUST_LOG is invalid: invalid filter directive"),
        Ok(config) => panic!("accepted {}", config.rust_log),
    }
    let mut raw = raw_config();
    raw.rust_log = Some("tapo=loud".to_owned());
    match Config::try_from_raw(raw) {
        Err(ConfigError::InvalidLogFilter(message)) => {
            assert!(message.starts_with("error parsing level filter"), "{message}")
        }
        other => panic!("{other:?}"),
    }
}

#[test]
fn accepting_a_filter_goes_by_how_checking_it_went() {
    let config = Config::from_values(raw_config()).expect("values should be valid");
    assert_eq!(config.rust_log, "info");
    let kept = config.clone().accept_log_filter(Ok(())).expect("filter was valid");
    assert_eq!(kept.tapo_hub_ip, "192.168.1.100");
    assert!(matches!(
        config.accept_log_filter(Err("bad".to_owned())),
        Err(ConfigError::InvalidLogFilter(message)) if message == "bad"
    ));
}

#[test]
fn filters_that_would_be_cut_inside_a_character_are_not_checked() {
    assert!(checkable(""));
    assert!(checkable("info, warn"));
    assert!(checkable("caf\u{e9}=info, warn"));
    assert!(!checkable("info, caf\u{e9}=warn"));
    assert!(!checkable("\u{3000}a=info"));
    assert!(!checkable(" [\u{e9}]"));
    assert!(!checkable("tapo=debug, caf\u{e9}=warn"));
    assert!(!checkable(" [{a=\u{e9}}]"));
    assert!(!checkable("    [a{\u{e9}}]=x"));
    assert!(checkable("info\u{3000}"));
}

#[test]
fn indented_filters_are_checked_where_no_cut_falls_into_a_character() {
    for (filter, valid) in [
        (" caf\u{e9}", true),
        ("\u{3000}info", true),
        ("warn, caf\u{e9}::sub", true),
        ("  x=caf\u{e9}", false),
        (" \u{e9}]", true),
        (" tapo=debug", false),
        (" [\u{e9}=]", true),
        (" a=\u{e9}\u{e9}=b", false),
        (" \u{20ac}=info", false),
        ("=, caf\u{e9}=warn", false),
        ("info,tapo=loud, caf\u{e9}=warn,\u{3000}a=b", false),
        (" [\u{e9}", false),
        (" [{}]=\u{e9}", false),
        ("  [{a=\u{e9}}]", true),
        (" [a{b}\u{e9}]=", false),
        ("    [a{b=(cd\u{e9}}]=x", false),
    ] {
        assert!(checkable(filter), "{filter}");
        let mut raw = raw_config();
        raw.rust_log = Some(filter.to_owned());
        match Config::from_env(Ok(raw)) {
            ConfigAttempt::Settled(Ok(config)) => {
                assert!(valid, "{filter}");
                assert_eq!(config.rust_log, filter);
            }
            ConfigAttempt::Settled(Err(ConfigError::InvalidLogFilter(_))) => {
                assert!(!valid, "{filter}")
            }
            other => panic!("{other:?}"),
        }
    }
}

#[test]
fn the_environment_is_made_into_a_configuration() {
    match Config::from_env(Ok(raw_config())) {
        ConfigAttempt::Settled(Ok(config)) => assert_eq!(config.rust_log, "info"),
        other => panic!("{other:?}"),
    }
    match Config::from_env(Err(EnvironmentError::Custom("whoops".to_owned()))) {
        ConfigAttempt::Settled(Err(error)) => {
            assert_eq!(error.message(), "failed to parse environment: whoops")
        }
        other => panic!("{other:?}"),
    }
    let mut raw = raw_config();
    raw.rust_log = Some("=".to_owned());
    assert!(matches!(
        Config::from_env(Ok(raw)),
        ConfigAttempt::Settled(Err(ConfigError::InvalidLogFilter(_)))
    ));
    let mut raw = raw_config();
    raw.rust_log = Some(" caf\u{e9}=info".to_owned());
    match Config::from_env(Ok(raw)) {
        ConfigAttempt::FilterUnchecked(config) => assert_eq!(config.rust_log, " caf\u{e9}=info"),
        other => panic!("{other:?}"),
    }
    let mut raw = raw_config();
    raw.tapo_username = None;
    raw.rust_log = Some(" caf\u{e9}=info".to_owned());
    assert!(matches!(
        Config::from_env(Ok(raw)),
        ConfigAttempt::Settled(Err(ConfigError::Missing("TAPO_USERNAME")))
    ));
}

#[test]
fn the_startup_filter_falls_back_to_info() {
    let mut raw = raw_config();
    raw.rust_log = Some("debug".to_owned());
    assert_eq!(startup_filter(&Config::try_from_raw(raw)), "debug");
    assert_eq!(startup_filter(&Err(ConfigError::Missing("TAPO_USERNAME"))), "info");
}

#[test]
fn the_values_of_a_valid_configuration_make_it_up_again() {
    let mut raw = raw_config();
    raw.tapo_hub_ip = Some("FE80:0:0:0:0:0:0:1".to_owned());
    let config = Config::try_from_raw(raw).expect("config should be valid");
    let again = Config::try_from_raw(RawConfig {
        tapo_username: Some(config.tapo_username.clone()),
        tapo_password: Some(config.tapo_password.clone()),
        tapo_hub_ip: Some(config.tapo_hub_ip.clone()),
        rust_log: Some(config.rust_log.clone()),
    })
    .expect("config should be valid");
    assert_eq!(again.tapo_username, config.tapo_username);
    assert_eq!(again.tapo_password, config.tapo_password);
    assert_eq!(again.tapo_hub_ip, "fe80::1");
    assert_eq!(again.rust_log, config.rust_log);
}
