use wakecomputer::config::{
    default_agent_port, default_broadcast_address, validate_config, validate_mac, validate_wol,
    Config, Machine, SocketAddress, WolConfig,
};
use wakecomputer::errors::AppError;

fn machine(name: &str, mac: &str) -> Machine {
    Machine {
        name: name.to_string(),
        mac: mac.to_string(),
        ip: "192.168.1.2".to_string(),
        agent_port: Some(9877),
        agent_token: "agent-secret".to_string(),
    }
}

fn config(machines: Vec<Machine>) -> Config {
    Config {
        listen: None,
        api_token: "server-secret".to_string(),
        wol: WolConfig::default(),
        machines,
    }
}

#[test]
fn mac_with_colons_is_valid() {
    assert_eq!(validate_mac("00:AA:BB:CC:DD:EE"), Ok(()));
}

#[test]
fn mac_with_dashes_and_lower_case_is_valid() {
    assert_eq!(validate_mac("00-aa-bb-cc-dd-ee"), Ok(()));
}

#[test]
fn mac_with_mixed_separators_is_valid() {
    assert_eq!(validate_mac("00:aa-bb:cc-dd:ee"), Ok(()));
}

#[test]
fn mac_with_five_groups_is_refused() {
    assert_eq!(
        validate_mac("00:AA:BB:CC:DD"),
        Err("invalid MAC address: 00:AA:BB:CC:DD".to_string())
    );
}

#[test]
fn mac_with_seven_groups_is_refused() {
    assert!(validate_mac("00:AA:BB:CC:DD:EE:FF").is_err());
}

#[test]
fn mac_with_short_group_is_refused() {
    assert!(validate_mac("0:AA:BB:CC:DD:EE").is_err());
}

#[test]
fn mac_with_non_hex_digit_is_refused() {
    assert_eq!(
        validate_mac("00:AA:BB:CC:DD:EG"),
        Err("invalid MAC address: 00:AA:BB:CC:DD:EG".to_string())
    );
}

#[test]
fn mac_with_sign_is_refused() {
    assert!(validate_mac("+0:AA:BB:CC:DD:EE").is_err());
}

#[test]
fn empty_mac_is_refused() {
    assert!(validate_mac("").is_err());
}

#[test]
fn defaults_match_documentation() {
    assert_eq!(default_broadcast_address(), "255.255.255.255:9");
    assert_eq!(default_agent_port(), Some(9877));
    let w = WolConfig::default();
    assert_eq!(w.broadcast_address, "255.255.255.255:9");
    assert!(!w.multicast_enabled);
}

#[test]
fn default_wol_settings_are_valid() {
    let w = WolConfig::default();
    assert_eq!(validate_wol(&w, &SocketAddress::V4(255, 255, 255, 255)), Ok(()));
}

#[test]
fn broadcast_needs_last_octet_255() {
    let w = WolConfig { broadcast_address: "192.168.1.1:9".to_string(), multicast_enabled: false };
    assert_eq!(
        validate_wol(&w, &SocketAddress::V4(192, 168, 1, 1)),
        Err(AppError::Config(
            "wol.broadcast_address '192.168.1.1:9': expected broadcast address (last octet must be 255)"
                .to_string()
        ))
    );
    let ok = WolConfig { broadcast_address: "192.168.1.255:9".to_string(), multicast_enabled: false };
    assert_eq!(validate_wol(&ok, &SocketAddress::V4(192, 168, 1, 255)), Ok(()));
}

#[test]
fn multicast_needs_multicast_address() {
    let w = WolConfig { broadcast_address: "255.255.255.255:9".to_string(), multicast_enabled: true };
    assert_eq!(
        validate_wol(&w, &SocketAddress::V4(255, 255, 255, 255)),
        Err(AppError::Config(
            "wol.broadcast_address '255.255.255.255:9': expected multicast address (224.0.0.0/4)"
                .to_string()
        ))
    );
    let low = WolConfig { broadcast_address: "224.0.0.1:9".to_string(), multicast_enabled: true };
    assert_eq!(validate_wol(&low, &SocketAddress::V4(224, 0, 0, 1)), Ok(()));
    let high = WolConfig { broadcast_address: "239.1.2.3:9".to_string(), multicast_enabled: true };
    assert_eq!(validate_wol(&high, &SocketAddress::V4(239, 1, 2, 3)), Ok(()));
    let above = WolConfig { broadcast_address: "240.0.0.1:9".to_string(), multicast_enabled: true };
    assert!(validate_wol(&above, &SocketAddress::V4(240, 0, 0, 1)).is_err());
}

#[test]
fn ipv6_broadcast_is_refused() {
    let w = WolConfig { broadcast_address: "[::1]:9".to_string(), multicast_enabled: false };
    assert_eq!(
        validate_wol(&w, &SocketAddress::V6),
        Err(AppError::Config("wol.broadcast_address '[::1]:9': IPv6 not supported".to_string()))
    );
}

#[test]
fn unparsable_broadcast_is_refused_with_parser_message() {
    let w = WolConfig { broadcast_address: "nowhere".to_string(), multicast_enabled: false };
    assert_eq!(
        validate_wol(&w, &SocketAddress::Unparsable("invalid socket address syntax".to_string())),
        Err(AppError::Config(
            "wol.broadcast_address 'nowhere': invalid socket address syntax".to_string()
        ))
    );
}

#[test]
fn config_with_valid_macs_is_accepted() {
    let c = config(vec![machine("workstation", "00:AA:BB:CC:DD:EE"), machine("nas", "00-11-22-33-44-55")]);
    assert_eq!(validate_config(&c, &SocketAddress::V4(255, 255, 255, 255)), Ok(()));
}

#[test]
fn config_names_first_machine_with_bad_mac() {
    let c = config(vec![
        machine("workstation", "00:AA:BB:CC:DD:EE"),
        machine("nas", "00:11:22"),
        machine("laptop", "zz"),
    ]);
    assert_eq!(
        validate_config(&c, &SocketAddress::V4(255, 255, 255, 255)),
        Err(AppError::Config("machine 'nas': invalid MAC address: 00:11:22".to_string()))
    );
}

#[test]
fn config_checks_wol_before_machines() {
    let c = config(vec![machine("nas", "bad")]);
    assert_eq!(
        validate_config(&c, &SocketAddress::V6),
        Err(AppError::Config(
            "wol.broadcast_address '255.255.255.255:9': IPv6 not supported".to_string()
        ))
    );
}

#[test]
fn find_machine_ignores_ascii_case() {
    let c = config(vec![machine("Workstation", "00:AA:BB:CC:DD:EE"), machine("nas", "00:11:22:33:44:55")]);
    assert_eq!(c.find_machine("workstation").map(|m| m.name.as_str()), Some("Workstation"));
    assert_eq!(c.find_machine("WORKSTATION").map(|m| m.name.as_str()), Some("Workstation"));
    assert_eq!(c.find_machine("NAS").map(|m| m.name.as_str()), Some("nas"));
    assert!(c.find_machine("work").is_none());
    assert!(c.find_machine("").is_none());
}

#[test]
fn find_machine_takes_first_match() {
    let mut second = machine("PC", "00:11:22:33:44:55");
    second.ip = "10.0.0.2".to_string();
    let c = config(vec![machine("pc", "00:AA:BB:CC:DD:EE"), second]);
    assert_eq!(c.find_machine("Pc").map(|m| m.ip.as_str()), Some("192.168.1.2"));
}

#[test]
fn listen_address_defaults_to_loopback() {
    let mut c = config(vec![]);
    assert_eq!(c.listen_address(), "127.0.0.1:9876");
    c.listen = Some("0.0.0.0:80".to_string());
    assert_eq!(c.listen_address(), "0.0.0.0:80");
}

#[test]
fn machine_names_keep_order() {
    let c = config(vec![machine("a", "00:AA:BB:CC:DD:EE"), machine("b", "00:AA:BB:CC:DD:EF")]);
    assert_eq!(c.machine_names(), vec!["a".to_string(), "b".to_string()]);
}
