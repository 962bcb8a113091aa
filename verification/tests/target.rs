use scout::target::{block_addresses_exec, parse_ipv4, parse_target};

fn addr(a: u8, b: u8, c: u8, d: u8) -> u32 {
    u32::from_be_bytes([a, b, c, d])
}

#[test]
fn single_address_target() {
    assert_eq!(parse_target("192.168.1.7").unwrap(), vec![addr(192, 168, 1, 7)]);
}

#[test]
fn cidr_target_lists_every_address() {
    assert_eq!(
        parse_target("192.168.1.0/30").unwrap(),
        vec![
            addr(192, 168, 1, 0),
            addr(192, 168, 1, 1),
            addr(192, 168, 1, 2),
            addr(192, 168, 1, 3),
        ]
    );
    assert_eq!(parse_target("10.0.0.5/32").unwrap(), vec![addr(10, 0, 0, 5)]);
    assert_eq!(parse_target("10.1.0.0/16").unwrap().len(), 65536);
}

#[test]
fn cidr_with_host_bits_is_rejected() {
    // The block's own address must have its host bits clear.
    assert!(parse_target("192.168.1.1/24").is_err());
}

#[test]
fn unsupported_targets() {
    let err = parse_target("example.com").unwrap_err();
    assert_eq!(err.to_string(), "Target not supported; supply an IP address or CIDR");
    assert!(parse_target("").is_err());
    assert!(parse_target("1.2.3").is_err());
    assert!(parse_target("1.2.3.256").is_err());
    assert!(parse_target("10.0.0.0/33").is_err());
}

#[test]
fn ipv4_parsing_follows_dotted_quad_rules() {
    assert_eq!(parse_ipv4("0.0.0.0"), Some(0));
    assert_eq!(parse_ipv4("255.255.255.255"), Some(u32::MAX));
    assert_eq!(parse_ipv4("1.2.3.4"), Some(0x0102_0304));
    for text in ["01.2.3.4", "1.2.3.4 ", "+1.2.3.4", "1..3.4", "1.2.3.4.5", "256.0.0.0", "1.2.3.1000"] {
        assert_eq!(parse_ipv4(text), None, "{text}");
    }
}

#[test]
fn block_addresses_are_contiguous() {
    let block = block_addresses_exec(addr(172, 16, 0, 8), 29);
    assert_eq!(block.len(), 8);
    assert_eq!(block[0], addr(172, 16, 0, 8));
    assert_eq!(block[7], addr(172, 16, 0, 15));
}

#[test]
fn cidr_prefix_is_read_as_a_u8() {
    // The prefix length is read like any unsigned integer: a `+` and leading
    // zeros are accepted, a bare `/` or a sign alone is not.
    assert_eq!(parse_target("10.0.0.0/+30").unwrap().len(), 4);
    assert_eq!(parse_target("10.0.0.0/030").unwrap().len(), 4);
    assert!(parse_target("10.0.0.0/").is_err());
    assert!(parse_target("10.0.0.0/-30").is_err());
    assert!(parse_target("10.0.0.0/30/30").is_err());
    assert!(parse_target("10.0.0.1/0").is_err());
}
