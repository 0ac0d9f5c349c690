use network_simulator::config::{ConfigError, SimulatorConfig, TopologyConfig, TunIngressConfig};
use network_simulator::topology::LinkConfig;

fn cfg(delay_ms: u32) -> LinkConfig {
    LinkConfig { mtu: None, delay_ms, jitter_ms: 0, loss_basis_points: 0, load_balance: false }
}

#[test]
fn test_empty_topology_routers() {
    let c = SimulatorConfig::default();
    let result = c.validate();
    assert!(result.is_err());
    assert_eq!(result.unwrap_err(), "Topology must define at least one router");
}

#[test]
fn test_duplicate_bidirectional_link() {
    let mut c = SimulatorConfig::default();
    c.topology.routers.push("Rx0y0".to_string());
    c.topology.routers.push("Rx5y5".to_string());
    c.topology.links.push(("Rx0y0_Rx5y5".to_string(), cfg(1)));
    c.topology.links.push(("Rx5y5_Rx0y0".to_string(), cfg(1)));
    let result = c.validate();
    assert!(result.is_err());
    assert!(result.unwrap_err().contains("Duplicate bidirectional link detected"));
}

#[test]
fn test_invalid_link_name_format() {
    let mut c = SimulatorConfig::default();
    c.topology.routers.push("R1".to_string());
    c.topology.routers.push("R2".to_string());
    c.topology.links.push(("R1R2".to_string(), cfg(1)));
    let result = c.validate();
    assert!(result.is_err());
    assert!(result.unwrap_err().contains("Invalid link name 'R1R2'"));
}

#[test]
fn test_invalid_link_reference() {
    let topology = TopologyConfig {
        routers: vec!["Rx0y0".to_string(), "Rx0y1".to_string()],
        links: vec![("Rx0y0_Rx0y2".to_string(), cfg(0))],
    };
    let mut c = SimulatorConfig::default();
    c.tun_ingress = TunIngressConfig {
        tun_a_ingress: "Rx0y0".to_string(),
        tun_b_ingress: "Rx0y1".to_string(),
        ..TunIngressConfig::default()
    };
    c.topology = topology;
    assert!(c.validate().is_err());
    assert_eq!(c.validate().unwrap_err(), "Link 'Rx0y0_Rx0y2' references unknown router 'Rx0y2'");
}

#[test]
fn test_mutually_exclusive_packet_files() {
    let mut c = SimulatorConfig::default();
    c.packet_file = Some("single.txt".to_string());
    c.packet_files = Some(vec!["multi1.txt".to_string(), "multi2.txt".to_string()]);
    let result = c.validate();
    assert!(result.is_err());
    assert_eq!(result.unwrap_err(), "Both 'packet_file' and 'packet_files' are set; only one may be specified");
}

#[test]
fn test_mismatched_injection_counts() {
    let mut c = SimulatorConfig::default();
    c.packet_files = Some(vec!["file1.txt".to_string(), "file2.txt".to_string()]);
    c.packet_inject_tuns = Some(vec!["tun_a".to_string()]);
    let result = c.validate();
    assert!(result.is_err());
    assert!(result
        .unwrap_err()
        .contains("Number of packet files (2) does not match number of injection directions (1)"));
}

#[test]
fn test_inject_without_file() {
    let mut c = SimulatorConfig::default();
    c.packet_inject_tun = Some("tun_a".to_string());
    let result = c.validate();
    assert!(result.is_err());
    assert_eq!(result.unwrap_err(), "'packet_inject_tun' specified without a 'packet_file'");
}

#[test]
fn test_injects_without_files() {
    let mut c = SimulatorConfig::default();
    c.packet_inject_tuns = Some(vec!["tun_a".to_string()]);
    let result = c.validate();
    assert!(result.is_err());
    assert_eq!(result.unwrap_err(), "'packet_inject_tuns' specified without 'packet_files'");
}

#[test]
fn test_invalid_packet_inject_tun_value() {
    let mut c = SimulatorConfig::default();
    c.packet_file = Some("dummy.txt".to_string());
    c.packet_inject_tun = Some("invalid_tun".to_string());
    let result = c.validate();
    assert!(result.is_err());
    assert_eq!(result.unwrap_err(), "Invalid packet_inject_tun value 'invalid_tun', expected 'tun_a' or 'tun_b'");
}

#[test]
fn test_invalid_packet_inject_tuns_values() {
    let mut c = SimulatorConfig::default();
    c.packet_files = Some(vec!["file1.txt".to_string()]);
    c.packet_inject_tuns = Some(vec!["tun_a".to_string(), "bad".to_string()]);
    let result = c.validate();
    assert!(result.is_err());
    assert_eq!(result.unwrap_err(), "Invalid packet_inject_tuns value 'bad', expected 'tun_a' or 'tun_b'");
}

#[test]
fn valid_config_and_ingress_checks() {
    let mut c = SimulatorConfig::default();
    c.topology.routers.push("Rx0y0".to_string());
    c.topology.routers.push("Rx5y5".to_string());
    c.topology.links.push(("Rx0y0_Rx5y5".to_string(), cfg(1)));
    assert_eq!(c.validate(), Ok(()));
    c.tun_ingress.tun_b_ingress = "Rx1y1".to_string();
    assert_eq!(c.check(), Err(ConfigError::IngressNotFound("Rx1y1".to_string())));
    let mut d = SimulatorConfig::default();
    d.topology.routers.push("Rx0y0".to_string());
    d.topology.routers.push("Rx9y9".to_string());
    d.tun_ingress.tun_b_ingress = "Rx9y9".to_string();
    assert_eq!(d.validate().unwrap_err(), "Invalid router id 'Rx9y9', expected Rx[0-5]y[0-5]");
    let mut e = SimulatorConfig::default();
    e.packet_files = Some(vec![]);
    e.packet_inject_tuns = Some(vec![]);
    assert_eq!(e.validate().unwrap_err(), "packet_files list cannot be empty");
}
