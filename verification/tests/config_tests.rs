use unity_cli::config::default_host;
use unity_cli::config::default_port;
use unity_cli::config::default_timeout_ms;
use unity_cli::config::read_env_u16_with_deprecation;
use unity_cli::config::read_env_u64_with_deprecation;
use unity_cli::config::read_env_with_deprecation;
use unity_cli::config::CliOverrides;
use unity_cli::config::EnvSnapshot;
use unity_cli::config::RuntimeConfig;

fn empty_env() -> EnvSnapshot {
    EnvSnapshot {
        cli_host: None,
        mcp_mcp_host: None,
        mcp_unity_host: None,
        cli_port: None,
        mcp_port: None,
        cli_timeout_ms: None,
        mcp_command_timeout: None,
        mcp_connect_timeout: None,
    }
}

#[test]
fn primary_key_takes_precedence_over_deprecated() {
    let primary = vec![Some(String::from("primary-host"))];
    let deprecated = vec![Some(String::from("deprecated-host"))];
    let value = read_env_with_deprecation(&primary, &deprecated);
    assert_eq!(value.map(|r| r.value).as_deref(), Some("primary-host"));
}

#[test]
fn deprecated_key_returns_value_when_primary_absent() {
    let primary = vec![None];
    let deprecated = vec![Some(String::from("deprecated-host"))];
    let value = read_env_with_deprecation(&primary, &deprecated);
    assert_eq!(value.map(|r| r.value).as_deref(), Some("deprecated-host"));
}

#[test]
fn returns_none_when_no_keys_set() {
    let primary: Vec<Option<String>> = vec![None];
    let deprecated: Vec<Option<String>> = vec![None];
    let value = read_env_with_deprecation(&primary, &deprecated);
    assert!(value.is_none());
}

#[test]
fn empty_value_is_ignored() {
    let primary = vec![Some(String::from("  "))];
    let deprecated = vec![None];
    let value = read_env_with_deprecation(&primary, &deprecated);
    assert!(value.is_none());
}

#[test]
fn deprecated_reading_reports_which_key() {
    let primary = vec![None];
    let deprecated = vec![None, Some(String::from("fallback"))];
    let reading = read_env_with_deprecation(&primary, &deprecated).expect("a value");
    assert_eq!(reading.value, "fallback");
    assert_eq!(reading.deprecated_index, Some(1));
}

#[test]
fn u16_with_deprecation_parses_correctly() {
    let primary = vec![None];
    let deprecated = vec![Some(String::from("7000"))];
    let value = read_env_u16_with_deprecation(&primary, &deprecated);
    assert_eq!(value, Some(7000));
}

#[test]
fn u16_with_deprecation_rejects_zero() {
    let primary = vec![Some(String::from("0"))];
    let deprecated = vec![None];
    let value = read_env_u16_with_deprecation(&primary, &deprecated);
    assert!(value.is_none());
}

#[test]
fn a_leading_plus_sign_is_accepted_on_numbers() {
    let primary = vec![Some(String::from("+7000"))];
    let deprecated = vec![None];
    assert_eq!(read_env_u16_with_deprecation(&primary, &deprecated), Some(7000));
    assert_eq!(read_env_u64_with_deprecation(&primary, &deprecated), Some(7000));
}

#[test]
fn u16_rejects_out_of_range_and_garbage() {
    let primary = vec![Some(String::from("65536"))];
    let deprecated = vec![None];
    assert!(read_env_u16_with_deprecation(&primary, &deprecated).is_none());
    let primary = vec![Some(String::from("port"))];
    assert!(read_env_u16_with_deprecation(&primary, &deprecated).is_none());
}

#[test]
fn u64_with_deprecation_parses_correctly() {
    let primary = vec![None];
    let deprecated = vec![Some(String::from("5000"))];
    let value = read_env_u64_with_deprecation(&primary, &deprecated);
    assert_eq!(value, Some(5000));
}

#[test]
fn u64_with_deprecation_rejects_zero() {
    let primary = vec![Some(String::from("0"))];
    let deprecated = vec![None];
    let value = read_env_u64_with_deprecation(&primary, &deprecated);
    assert!(value.is_none());
}

#[test]
fn default_host_returns_localhost_without_env() {
    assert_eq!(default_host(&empty_env()), "localhost");
}

#[test]
fn default_port_returns_6400_without_env() {
    assert_eq!(default_port(&empty_env()), 6400);
}

#[test]
fn default_timeout_returns_30000_without_env() {
    assert_eq!(default_timeout_ms(&empty_env()), 30_000);
}

#[test]
fn cli_values_win_over_environment() {
    let mut env = empty_env();
    env.cli_host = Some(String::from("env-host"));
    env.cli_port = Some(String::from("7001"));
    let cli = CliOverrides {
        host: Some(String::from("cli-host")),
        port: None,
        timeout_ms: Some(12345),
    };
    let config = RuntimeConfig::from_cli(&cli, &env);
    assert_eq!(config.host, "cli-host");
    assert_eq!(config.port, 7001);
    assert_eq!(config.timeout_ms, 12345);
}
