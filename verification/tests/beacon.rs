use syncweb_core::beacon::{beacon_port, flag_is_set, BEACON_PORT_SPREAD, DEFAULT_BEACON_PORT};

#[test]
fn beacon_port_is_scoped() {
    let scope = [7_u8; 16];
    let port = beacon_port(DEFAULT_BEACON_PORT, Some(&scope));
    let offset = u16::from_be_bytes([scope[0], scope[1]]) % BEACON_PORT_SPREAD;
    assert_eq!(port, DEFAULT_BEACON_PORT.saturating_add(offset));
    assert_eq!(beacon_port(DEFAULT_BEACON_PORT, None), DEFAULT_BEACON_PORT);
}

#[test]
fn beacon_port_saturates() {
    let scope = [0xFF_u8; 16];
    assert_eq!(beacon_port(u16::MAX - 1, Some(&scope)), u16::MAX);
    assert_eq!(beacon_port(15200, Some(&[0x12, 0x34, 0, 0, 0, 0, 0, 0, 0, 0, 0, 0, 0, 0, 0, 0])), 15200 + (0x1234 % 2048));
}

#[test]
fn interface_flags_are_tested_bitwise() {
    assert!(flag_is_set(0b101, 0b100));
    assert!(!flag_is_set(0b101, 0b010));
}
