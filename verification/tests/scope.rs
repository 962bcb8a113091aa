use scout::scope::{build_port_range, parse_port_spec, scope};
use scout::types::PortSpec;

fn parse(raw: &str) -> PortSpec {
    raw.parse().expect("should parse")
}

#[test]
fn from_str_presets_are_case_insensitive_and_trimmed() {
    assert!(matches!(parse("web"), PortSpec::Web));
    assert!(matches!(parse("  WEB "), PortSpec::Web));
    assert!(matches!(parse("Common"), PortSpec::Common));
    assert!(matches!(parse("ALL"), PortSpec::All));
}

#[test]
fn from_str_range() {
    assert!(matches!(parse("1-100"), PortSpec::Range(1, 100)));
    // Whitespace around the bounds is trimmed.
    assert!(matches!(parse(" 20 - 25 "), PortSpec::Range(20, 25)));
}

#[test]
fn from_str_list() {
    assert!(matches!(parse("22,80,443"), PortSpec::List(ref p) if p == &[22, 80, 443]));
    // Whitespace inside the list is trimmed.
    assert!(matches!(parse("22, 80 , 443"), PortSpec::List(ref p) if p == &[22, 80, 443]));
}

#[test]
fn from_str_bare_number_is_single_item_list() {
    assert!(matches!(parse("8080"), PortSpec::List(ref p) if p == &[8080]));
}

#[test]
fn from_str_rejects_invalid_input() {
    assert!("abc".parse::<PortSpec>().is_err());
    assert!("80-".parse::<PortSpec>().is_err());
    assert!("70000".parse::<PortSpec>().is_err()); // out of u16 range
    assert!("1,foo,3".parse::<PortSpec>().is_err());
}

#[test]
fn resolve_presets() {
    assert_eq!(PortSpec::Web.resolve().unwrap(), vec![80, 443, 8080, 8443, 8000]);
    assert_eq!(
        PortSpec::Common.resolve().unwrap(),
        vec![22, 23, 53, 80, 139, 443, 445, 631, 8000, 8080, 8443]
    );
}

#[test]
fn resolve_all_is_full_port_range() {
    let ports = PortSpec::All.resolve().unwrap();
    assert_eq!(ports.len(), 65535);
    assert_eq!(*ports.first().unwrap(), 1);
    assert_eq!(*ports.last().unwrap(), u16::MAX);
}

#[test]
fn resolve_range() {
    assert_eq!(PortSpec::Range(1, 3).resolve().unwrap(), vec![1, 2, 3]);
    // A single-port range is inclusive.
    assert_eq!(PortSpec::Range(5, 5).resolve().unwrap(), vec![5]);
}

#[test]
fn resolve_rejects_reversed_range() {
    let err = PortSpec::Range(3, 1).resolve().unwrap_err();
    assert_eq!(err.to_string(), "start port must be smaller than end port");
}

#[test]
fn resolve_list_is_preserved() {
    assert_eq!(
        PortSpec::List(vec![9, 1, 5]).resolve().unwrap(),
        vec![9, 1, 5]
    );
}

#[test]
fn parse_errors_carry_the_number_message() {
    assert_eq!(
        "70000".parse::<PortSpec>().unwrap_err().to_string(),
        "number too large to fit in target type"
    );
    assert_eq!(
        "abc".parse::<PortSpec>().unwrap_err().to_string(),
        "invalid digit found in string"
    );
    assert_eq!(
        "80-".parse::<PortSpec>().unwrap_err().to_string(),
        "cannot parse integer from empty string"
    );
}

#[test]
fn reversed_range_parses_but_does_not_resolve() {
    let spec = parse("25-20");
    assert!(matches!(spec, PortSpec::Range(25, 20)));
    assert!(spec.resolve().is_err());
}

#[test]
fn port_spec_defaults_to_common() {
    assert!(matches!(parse_port_spec(None), Ok(PortSpec::Common)));
    assert!(matches!(parse_port_spec(Some("web".to_string())), Ok(PortSpec::Web)));
    assert!(parse_port_spec(Some("x".to_string())).is_err());
}

#[test]
fn scope_pairs_hosts_with_ports() {
    let plan = scope(vec![1, 2], PortSpec::Range(7, 9)).unwrap();
    assert_eq!(plan.hosts, vec![1, 2]);
    assert_eq!(plan.ports, vec![7, 8, 9]);
    assert!(scope(vec![1], PortSpec::Range(9, 7)).is_err());
}

#[test]
fn port_range_defaults() {
    let ports = build_port_range(None, None).unwrap();
    assert_eq!(ports.len(), 1024);
    assert_eq!(ports[0], 1);
    assert_eq!(build_port_range(Some(5), Some(6)).unwrap(), vec![5, 6]);
    assert_eq!(
        build_port_range(Some(9), Some(3)).unwrap_err().to_string(),
        "start port must be smaller than end poirt"
    );
}
