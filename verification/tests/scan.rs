use arcrelay_network::address::{ipv4, IpAddress, SocketAddress};
use arcrelay_network::peer::DeviceId;
use arcrelay_network::runtime::scan::{
    interface_priority, is_likely_virtual, local_scan_interfaces, plan_scan, subnet_hosts,
    subnet_prefix, HostInterface, LanScanReport, ScanRun, ScanState, ScanStep,
};

fn interface(name: &str, address: IpAddress) -> HostInterface {
    HostInterface { name: name.to_string(), address }
}

fn lan(name: &str, a: u8, b: u8, c: u8, d: u8) -> HostInterface {
    interface(name, IpAddress::V4(ipv4(a, b, c, d)))
}

#[test]
fn scan_scope_is_always_one_slash_24() {
    let prefix = subnet_prefix(ipv4(10, 20, 30, 40));
    let hosts = subnet_hosts(prefix);
    assert_eq!(hosts.len(), 254);
    assert_eq!(hosts.first(), Some(&ipv4(10, 20, 30, 1)));
    assert_eq!(hosts.last(), Some(&ipv4(10, 20, 30, 254)));
}

#[test]
fn virtual_interfaces_are_excluded() {
    assert!(is_likely_virtual("utun4"));
    assert!(is_likely_virtual("docker0"));
    assert!(!is_likely_virtual("en0"));
    assert!(!is_likely_virtual("Ethernet"));
}

#[test]
fn interfaces_are_classed_by_name() {
    for name in ["en0", "ETH1", "wlan0", "My Wi-Fi", "xwifi"] {
        assert_eq!(interface_priority(name), 0);
    }
    assert_eq!(interface_priority("ppp0"), 1);
    for name in ["LO", "tun0", "tap1", "veth9", "br-12", "virbr0", "vmnet1", "tailscale0", "wg0"] {
        assert!(is_likely_virtual(name));
    }
}

#[test]
fn private_interfaces_are_scanned_in_order() {
    let list = local_scan_interfaces(vec![
        lan("ppp0", 10, 0, 0, 2),
        lan("eth1", 192, 168, 1, 2),
        lan("eth0", 172, 31, 0, 2),
        lan("eth0", 172, 16, 0, 2),
        lan("eth2", 8, 8, 8, 8),
        lan("eth3", 172, 32, 0, 1),
        lan("docker0", 172, 17, 0, 1),
        interface("eth4", IpAddress::V6(1)),
    ]);
    let found: Vec<(&str, u32)> = list.iter().map(|i| (i.name.as_str(), i.ip)).collect();
    assert_eq!(
        found,
        vec![
            ("eth0", ipv4(172, 16, 0, 2)),
            ("eth0", ipv4(172, 31, 0, 2)),
            ("eth1", ipv4(192, 168, 1, 2)),
            ("ppp0", ipv4(10, 0, 0, 2)),
        ]
    );
}

#[test]
fn a_scan_covers_two_networks_without_this_device() {
    let plan = plan_scan(&local_scan_interfaces(vec![
        lan("eth0", 192, 168, 2, 7),
        lan("eth1", 192, 168, 1, 9),
        lan("eth2", 192, 168, 1, 8),
        lan("eth3", 192, 168, 3, 1),
    ]));
    assert_eq!(plan.subnets, vec![[192, 168, 1], [192, 168, 2]]);
    assert_eq!(plan.endpoints.len(), 252 + 253);
    assert_eq!(
        plan.endpoints[0],
        SocketAddress::V4 { ip: ipv4(192, 168, 1, 1), port: 8765 }
    );
    assert!(plan.endpoints.iter().all(|e| e.port() == 8765));
    let own = SocketAddress::V4 { ip: ipv4(192, 168, 2, 7), port: 8765 };
    assert!(!plan.endpoints.contains(&own));
}

#[test]
fn scans_are_throttled() {
    let mut state = ScanState::new();
    let second = 1_000_000_000_u64;
    assert!(state.begin(second).is_none());
    let refused = state.begin(60 * second).unwrap();
    assert!(refused.throttled);
    assert_eq!(refused, LanScanReport { throttled: true, ..LanScanReport::default() });
    assert!(state.begin(61 * second).is_none());
}

#[test]
fn a_scan_is_bounded_and_reports() {
    let plan = plan_scan(&local_scan_interfaces(vec![lan("eth0", 10, 0, 0, 7)]));
    let mut run = ScanRun::start(plan);
    let mut running = 0_usize;
    let mut launched = 0_usize;
    let mut most = 0_usize;
    loop {
        match run.next_step(false) {
            ScanStep::Launch(_) => {
                running += 1;
                launched += 1;
                most = most.max(running);
            }
            ScanStep::Join => {
                running -= 1;
                let found = DeviceId::from_text(format!("arc-{}", launched % 2));
                run.probe_ended(Some(found));
            }
            ScanStep::Finish => break,
        }
    }
    assert_eq!(running, 0);
    assert_eq!(launched, 253);
    assert_eq!(most, 32);
    let report = run.report();
    assert_eq!(report.attempted_endpoints, 253);
    assert_eq!(report.discovered_devices, 2);
    assert_eq!(report.scanned_subnets, 1);
    assert!(!report.throttled);
}

#[test]
fn a_cancelled_scan_waits_for_its_probes() {
    let plan = plan_scan(&local_scan_interfaces(vec![lan("eth0", 10, 0, 0, 7)]));
    let mut run = ScanRun::start(plan);
    assert!(matches!(run.next_step(false), ScanStep::Launch(_)));
    assert_eq!(run.next_step(true), ScanStep::Join);
    run.probe_ended(None);
    assert_eq!(run.next_step(true), ScanStep::Finish);
    assert_eq!(run.report().attempted_endpoints, 1);
    assert_eq!(run.report().discovered_devices, 0);
}
