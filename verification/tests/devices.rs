use hub::devices::{
    command_url, devices_url, extract_ips, merge_node_devices, should_fetch_devices, status_url,
    AttemptOutcome, UpdateAttempts, UpdateStep,
};

const NMAP_OUTPUT: &str = "Starting Nmap 7.80 ( https://nmap.org ) at 2024-01-01 12:00 UTC
Nmap scan report for 192.168.2.1
Host is up (0.0010s latency).
Nmap scan report for node-a (192.168.2.17)
Host is up (0.0021s latency).
Nmap done: 256 IP addresses (2 hosts up) scanned in 2.31 seconds";

#[test]
fn ips_in_a_scan() {
    assert_eq!(
        extract_ips(NMAP_OUTPUT).unwrap(),
        vec!["192.168.2.1".to_string(), "192.168.2.17".to_string()]
    );
}

#[test]
fn no_ips_in_plain_text() {
    assert_eq!(extract_ips("no hosts here 1.2.3").unwrap(), Vec::<String>::new());
    assert_eq!(extract_ips("").unwrap(), Vec::<String>::new());
}

#[test]
fn urls() {
    assert_eq!(devices_url("192.168.2.17"), "http://192.168.2.17/devices");
    assert_eq!(
        status_url("192.168.2.17", 0x0da6f72304f342818b4827c89c208284),
        "http://192.168.2.17/status?uuid=0da6f723-04f3-4281-8b48-27c89c208284"
    );
    assert_eq!(
        command_url("10.0.0.2", 1, "set", Some(5)),
        "http://10.0.0.2/command?uuid=00000000-0000-0000-0000-000000000001&action=set&target=5"
    );
    assert_eq!(
        command_url("10.0.0.2", u128::MAX, "on", None),
        "http://10.0.0.2/command?uuid=ffffffff-ffff-ffff-ffff-ffffffffffff&action=on&target="
    );
}

#[test]
fn later_reports_replace_earlier_ones() {
    let reports = vec![
        Some(vec![(1u128, "a"), (2u128, "b")]),
        None,
        Some(vec![(2u128, "c"), (3u128, "d")]),
    ];
    let merged = merge_node_devices(reports);
    assert_eq!(merged.len(), 3);
    assert_eq!(merged[&1], "a");
    assert_eq!(merged[&2], "c");
    assert_eq!(merged[&3], "d");
}

#[test]
fn fetching_rounds() {
    assert!(should_fetch_devices(None, 0, 0));
    assert!(!should_fetch_devices(None, 0, 1));
    assert!(should_fetch_devices(Some(3), 2, 9));
    assert!(!should_fetch_devices(Some(3), 2, 10));
    assert!(!should_fetch_devices(Some(3), 3, 0));
}

#[test]
fn success_ends_at_once() {
    let mut a = UpdateAttempts::new();
    assert_eq!(a.record(AttemptOutcome::Failed), UpdateStep::Retry);
    assert_eq!(a.record(AttemptOutcome::Answered(204)), UpdateStep::Finished(204));
    assert_eq!(a.tries, 2);
}

#[test]
fn four_attempts_at_most() {
    let mut a = UpdateAttempts::new();
    assert_eq!(a.record(AttemptOutcome::Answered(500)), UpdateStep::Retry);
    assert_eq!(a.record(AttemptOutcome::Failed), UpdateStep::Retry);
    assert_eq!(a.record(AttemptOutcome::Failed), UpdateStep::Retry);
    assert_eq!(a.record(AttemptOutcome::Failed), UpdateStep::Finished(500));

    let mut b = UpdateAttempts::new();
    for _ in 0..3 {
        assert_eq!(b.record(AttemptOutcome::Failed), UpdateStep::Retry);
    }
    assert_eq!(b.record(AttemptOutcome::Failed), UpdateStep::Failed);
}
