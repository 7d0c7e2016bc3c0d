use azalea::address::{parse_address, DEFAULT_PORT};

#[test]
fn host_alone_gets_the_default_port() {
    assert_eq!(DEFAULT_PORT, 25565);
    assert_eq!(parse_address("example.org"), Some(("example.org".to_string(), 25565)));
    assert_eq!(parse_address("localhost"), Some(("localhost".to_string(), 25565)));
}

#[test]
fn host_and_port_are_split_at_the_last_colon() {
    assert_eq!(parse_address("example.org:25566"), Some(("example.org".to_string(), 25566)));
    assert_eq!(parse_address("127.0.0.1:0"), Some(("127.0.0.1".to_string(), 0)));
    assert_eq!(parse_address("host:65535"), Some(("host".to_string(), 65535)));
    assert_eq!(parse_address("host:00080"), Some(("host".to_string(), 80)));
    assert_eq!(parse_address("::1:8080"), Some(("::1".to_string(), 8080)));
}

#[test]
fn bad_addresses_are_refused() {
    assert_eq!(parse_address(""), None);
    assert_eq!(parse_address(":25565"), None);
    assert_eq!(parse_address("host:"), None);
    assert_eq!(parse_address("host:65536"), None);
    assert_eq!(parse_address("host:99999999999999999999"), None);
    assert_eq!(parse_address("host:12a"), None);
    assert_eq!(parse_address("host:-1"), None);
    assert_eq!(parse_address("host:+80"), None);
    assert_eq!(parse_address("host: 80"), None);
}
