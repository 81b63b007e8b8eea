use udp_loss::config::{Config, ConfigError, RunMode};
use udp_loss::endpoint::Endpoint;

fn config(rate: usize, size: usize, ns: Option<&str>) -> Config {
    Config::new(
        rate,
        size,
        Endpoint::new(0x7f00_0001, false, 9000),
        "/tmp/out.log".to_string(),
        ns.map(|n| n.to_string()),
    )
}

#[test]
fn valid_config_passes() {
    let c = config(10, 16, Some("ns1"));
    assert_eq!(c.validate(RunMode::Both), Ok(()));
    assert_eq!(c.packet_rate, 10);
    assert_eq!(c.remote.port, 9000);
    assert_eq!(c.output_path, "/tmp/out.log");
}

#[test]
fn size_below_header_is_refused() {
    assert_eq!(config(10, 15, Some("ns1")).validate(RunMode::Server), Err(ConfigError::PacketTooSmall));
}

#[test]
fn zero_rate_is_refused() {
    assert_eq!(config(0, 100, None).validate(RunMode::Client), Err(ConfigError::ZeroRate));
}

#[test]
fn both_halves_need_a_namespace() {
    assert_eq!(config(10, 100, None).validate(RunMode::Both), Err(ConfigError::NamespaceRequired));
    assert_eq!(config(10, 100, None).validate(RunMode::Server), Ok(()));
}

#[test]
fn mode_from_flags() {
    assert_eq!(RunMode::from_flags(false, false), RunMode::Both);
    assert_eq!(RunMode::from_flags(true, true), RunMode::Both);
    assert_eq!(RunMode::from_flags(true, false), RunMode::Client);
    assert_eq!(RunMode::from_flags(false, true), RunMode::Server);
    assert!(RunMode::Both.runs_client() && RunMode::Both.runs_server());
    assert!(!RunMode::Client.runs_server() && !RunMode::Server.runs_client());
}
