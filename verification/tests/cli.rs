use scout::cli::{plan_inspection, plan_probe, PlanError};
use scout::scope::ScopeError;
use scout::target::TargetParseError;

fn addr(a: u8, b: u8, c: u8, d: u8) -> u32 {
    u32::from_be_bytes([a, b, c, d])
}

#[test]
fn inspection_plan_defaults_to_common_ports() {
    let plan = plan_inspection("10.0.0.1", None).unwrap();
    assert_eq!(plan.hosts, vec![addr(10, 0, 0, 1)]);
    assert_eq!(plan.ports, vec![22, 23, 53, 80, 139, 443, 445, 631, 8000, 8080, 8443]);
    let plan = plan_inspection("10.0.0.0/31", Some("22,80".to_string())).unwrap();
    assert_eq!(plan.hosts, vec![addr(10, 0, 0, 0), addr(10, 0, 0, 1)]);
    assert_eq!(plan.ports, vec![22, 80]);
}

#[test]
fn inspection_plan_errors_in_order() {
    // The target is checked before the ports.
    assert_eq!(
        plan_inspection("nowhere", Some("x".to_string())).unwrap_err(),
        PlanError::Target(TargetParseError::Unsupported)
    );
    assert_eq!(
        plan_inspection("10.0.0.1", Some("9-1".to_string())).unwrap_err(),
        PlanError::Scope(ScopeError::ReversedRange)
    );
    assert_eq!(
        plan_inspection("10.0.0.1", Some("x".to_string())).unwrap_err().to_string(),
        "invalid digit found in string"
    );
}

#[test]
fn probe_plan_pairs_hosts_and_ports() {
    let targets = plan_probe("10.0.0.0/31", Some(7), Some(8)).unwrap();
    assert_eq!(
        targets,
        vec![
            (addr(10, 0, 0, 0), 7),
            (addr(10, 0, 0, 0), 8),
            (addr(10, 0, 0, 1), 7),
            (addr(10, 0, 0, 1), 8),
        ]
    );
    assert_eq!(plan_probe("10.0.0.1", None, None).unwrap().len(), 1024);
    assert_eq!(
        plan_probe("10.0.0.1", Some(10), Some(1)).unwrap_err().to_string(),
        "start port must be smaller than end poirt"
    );
    assert_eq!(
        plan_probe("bad", None, None).unwrap_err().to_string(),
        "Target not supported; supply IP address or CIDR"
    );
}
