use scout::ttl::{parse_ttl_from_line, ttl_from_ping_output};

#[test]
fn extracts_ttl_from_ping_line() {
    let line = "64 bytes from 192.168.1.1: icmp_seq=1 ttl=64 time=0.5 ms";
    assert_eq!(parse_ttl_from_line(line), Some(64));
}

#[test]
fn boundary_values() {
    assert_eq!(parse_ttl_from_line("ttl=0"), Some(0));
    assert_eq!(parse_ttl_from_line("ttl=255"), Some(255));
}

#[test]
fn no_ttl_segment_is_none() {
    assert_eq!(parse_ttl_from_line("PING 192.168.1.1 56 data bytes"), None);
}

#[test]
fn out_of_range_or_non_numeric_is_none() {
    assert_eq!(parse_ttl_from_line("ttl=999"), None); // > u8::MAX
    assert_eq!(parse_ttl_from_line("ttl=abc"), None);
}

#[test]
fn first_ttl_segment_decides() {
    assert_eq!(parse_ttl_from_line("ttl=x ttl=5"), None);
}

#[test]
fn ping_output_takes_the_first_reply() {
    let output = "PING 10.0.0.1 (10.0.0.1) 56(84) bytes of data.\n\
                  64 bytes from 10.0.0.1: icmp_seq=1 ttl=63 time=0.4 ms\n\
                  64 bytes from 10.0.0.1: icmp_seq=2 ttl=62 time=0.4 ms\n";
    assert_eq!(ttl_from_ping_output(output), Some(63));
    assert_eq!(ttl_from_ping_output("no replies\n"), None);
}
