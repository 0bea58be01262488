use wakecomputer::errors::AppError;
use wakecomputer::wol::{magic_packet, parse_mac, wake_packet, WAKE_DESTINATION};

#[test]
fn parse_mac_reads_hex_groups() {
    assert_eq!(parse_mac("00:AA:bb:CC:dd:EE"), Ok([0x00, 0xAA, 0xBB, 0xCC, 0xDD, 0xEE]));
    assert_eq!(parse_mac("01-23-45-67-89-ab"), Ok([0x01, 0x23, 0x45, 0x67, 0x89, 0xAB]));
}

#[test]
fn parse_mac_follows_from_str_radix() {
    // u8::from_str_radix accepts one digit, a leading '+' and leading zeros.
    assert_eq!(parse_mac("f:+1:0a:000ff:2:3"), Ok([0x0F, 0x01, 0x0A, 0xFF, 0x02, 0x03]));
}

#[test]
fn parse_mac_refuses_bad_groups() {
    let err = Err(AppError::Wol("invalid MAC: 100:00:00:00:00:00".to_string()));
    assert_eq!(parse_mac("100:00:00:00:00:00"), err);
    assert!(parse_mac("-1:00:00:00:00:00").is_err());
    assert!(parse_mac("+:00:00:00:00:00").is_err());
    assert!(parse_mac(":00:00:00:00:00").is_err());
    assert!(parse_mac("g0:00:00:00:00:00").is_err());
}

#[test]
fn parse_mac_refuses_wrong_group_count() {
    assert_eq!(
        parse_mac("00:11:22:33:44"),
        Err(AppError::Wol("invalid MAC: 00:11:22:33:44".to_string()))
    );
    assert!(parse_mac("00:11:22:33:44:55:66").is_err());
}

#[test]
fn magic_packet_layout() {
    let mac = [0x00, 0xAA, 0xBB, 0xCC, 0xDD, 0xEE];
    let p = magic_packet(&mac);
    assert_eq!(p.len(), 102);
    assert_eq!(&p[..6], &[0xFF; 6]);
    for i in 0..16 {
        assert_eq!(&p[6 + i * 6..12 + i * 6], &mac);
    }
}

#[test]
fn wake_packet_for_text_address() {
    let p = wake_packet("01:02:03:04:05:06").unwrap();
    assert_eq!(p.len(), 102);
    assert_eq!(p[6], 1);
    assert_eq!(p[101], 6);
    assert_eq!(
        wake_packet("01:02:03"),
        Err(AppError::Wol("invalid MAC: 01:02:03".to_string()))
    );
}

#[test]
fn validated_mac_always_parses() {
    for mac in ["00:AA:BB:CC:DD:EE", "ff-ff-ff-ff-ff-ff", "0a:1B:2c:3D:4e:5F"] {
        assert_eq!(wakecomputer::config::validate_mac(mac), Ok(()));
        assert!(parse_mac(mac).is_ok());
    }
}

#[test]
fn packets_go_to_broadcast_port_nine() {
    assert_eq!(WAKE_DESTINATION, "255.255.255.255:9");
}

#[test]
fn mac_bytes_round_trip_through_text() {
    for b in [[0u8, 0xAA, 0xBB, 0xCC, 0xDD, 0xEE], [0xFF; 6], [0, 1, 0x10, 0x7F, 0x80, 0x0F]] {
        let forms = [
            format!("{:02X}:{:02X}:{:02X}:{:02X}:{:02X}:{:02X}", b[0], b[1], b[2], b[3], b[4], b[5]),
            format!("{:02x}-{:02x}-{:02x}-{:02x}-{:02x}-{:02x}", b[0], b[1], b[2], b[3], b[4], b[5]),
        ];
        for s in forms {
            assert_eq!(wakecomputer::config::validate_mac(&s), Ok(()));
            assert_eq!(parse_mac(&s), Ok(b));
        }
    }
}
