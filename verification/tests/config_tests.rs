use rustegrate::config::AppConfig;
use rustegrate::config::parse_port;
use rustegrate::models::default_limit;

#[test]
fn default_limit_is_one_hundred() {
    assert_eq!(default_limit(), 100);
}

#[test]
fn parse_port_accepts_plain_decimals() {
    assert_eq!(parse_port("8080"), Some(8080));
    assert_eq!(parse_port("0"), Some(0));
    assert_eq!(parse_port("65535"), Some(65535));
}

#[test]
fn parse_port_accepts_a_leading_plus() {
    assert_eq!(parse_port("+123"), Some(123));
}

#[test]
fn parse_port_rejects_garbage() {
    assert_eq!(parse_port(""), None);
    assert_eq!(parse_port("+"), None);
    assert_eq!(parse_port("12a"), None);
    assert_eq!(parse_port("-1"), None);
    assert_eq!(parse_port(" 80"), None);
}

#[test]
fn parse_port_rejects_values_over_the_range() {
    assert_eq!(parse_port("65536"), None);
    assert_eq!(parse_port("999999999999"), None);
}

#[test]
fn config_defaults_apply_when_values_are_absent() {
    let c = AppConfig::from_env_values(None, None, None, None);
    assert_eq!(c.host, "127.0.0.1");
    assert_eq!(c.port, 8080);
    assert_eq!(c.log_level, "info");
    assert_eq!(c.database_url, None);
}

#[test]
fn config_takes_given_values() {
    let c = AppConfig::from_env_values(
        Some("0.0.0.0".to_string()),
        Some("9000".to_string()),
        Some("debug".to_string()),
        Some("postgres://localhost/db".to_string()),
    );
    assert_eq!(c.host, "0.0.0.0");
    assert_eq!(c.port, 9000);
    assert_eq!(c.log_level, "debug");
    assert_eq!(c.database_url, Some("postgres://localhost/db".to_string()));
}

#[test]
fn config_falls_back_on_an_unparsable_port() {
    let c = AppConfig::from_env_values(None, Some("not-a-port".to_string()), None, None);
    assert_eq!(c.port, 8080);
}
