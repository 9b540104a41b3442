use vpn_share_proxy::device::{ArpEntry, DeviceTracker, DEVICE_TTL_SECS};
use vpn_share_proxy::types::{GatewayConfig, ProxyMode};

const ARP: &str = "IP address       HW type     Flags       HW address            Mask     Device\n\
192.168.43.2     0x1         0x2         aa:bb:cc:dd:ee:ff     *        ap0\n\
192.168.43.3     0x1         0x0         11:22:33:44:55:66     *        ap0\n\
192.168.43.4     0x1         0x2         00:00:00:00:00:00     *        ap0\n\
192.168.1.5      0x1         0x2         12:34:56:78:9a:bc     *        wlan0\n\
192.168.43.9     0x1         0x2         de:ad:be:ef:00:01\n\
\n\
192.168.42.7     0x1         0x2         de:ad:be:ef:00:02     *        rndis0\n";

fn allowlist() -> GatewayConfig {
    let mut c = GatewayConfig::default();
    c.proxy_mode = ProxyMode::MacAllowlist;
    c.managed_ifaces.insert("ap0".to_string());
    c.managed_ifaces.insert("rndis0".to_string());
    c.mac_allow_list.insert("AA:BB:CC:DD:EE:FF".to_string());
    c
}

fn arp(ip: &str, mac: &str, iface: &str) -> ArpEntry {
    ArpEntry { ip: ip.to_string(), mac: mac.to_string(), iface: iface.to_string() }
}

#[test]
fn arp_scan_keeps_complete_in_scope_neighbours() {
    let found = DeviceTracker::scan_arp(ARP, &allowlist());
    let got: Vec<(&str, &str, &str)> = found.iter().map(|a| (a.ip.as_str(), a.mac.as_str(), a.iface.as_str())).collect();
    assert_eq!(
        got,
        vec![("192.168.43.2", "AA:BB:CC:DD:EE:FF", "ap0"), ("192.168.42.7", "DE:AD:BE:EF:00:02", "rndis0")]
    );
    // Global mode manages no devices.
    assert!(DeviceTracker::scan_arp(ARP, &GatewayConfig::default()).is_empty());
}

#[test]
fn scope_and_policy() {
    let c = allowlist();
    assert!(DeviceTracker::iface_in_scope("ap0", &c));
    assert!(!DeviceTracker::iface_in_scope("wlan0", &c));
    assert!(!DeviceTracker::iface_in_scope("ap0", &GatewayConfig::default()));
    assert_eq!(DeviceTracker::policy_for_mac("AA:BB:CC:DD:EE:FF", &c), "allowed");
    assert_eq!(DeviceTracker::policy_for_mac("11:22:33:44:55:66", &c), "default");
    let mut b = GatewayConfig::default();
    b.proxy_mode = ProxyMode::MacBlocklist;
    b.mac_block_list.insert("11:22:33:44:55:66".to_string());
    assert_eq!(DeviceTracker::policy_for_mac("11:22:33:44:55:66", &b), "blocked");
    assert_eq!(DeviceTracker::policy_for_mac("AA:BB:CC:DD:EE:FF", &b), "default");
    assert_eq!(DeviceTracker::policy_for_mac("11:22:33:44:55:66", &GatewayConfig::default()), "default");
    // On both lists, the mode decides which one shows.
    b.mac_allow_list.insert("11:22:33:44:55:66".to_string());
    assert_eq!(DeviceTracker::policy_for_mac("11:22:33:44:55:66", &b), "blocked");
    b.proxy_mode = ProxyMode::MacAllowlist;
    assert_eq!(DeviceTracker::policy_for_mac("11:22:33:44:55:66", &b), "allowed");
}

#[test]
fn sessions_enter_touch_and_expire() {
    let c = allowlist();
    let mut t = DeviceTracker::new();
    assert_eq!(t.count(), 0);

    let seen = vec![arp("192.168.43.2", "AA:BB:CC:DD:EE:FF", "ap0"), arp("192.168.42.7", "DE:AD:BE:EF:00:02", "rndis0")];
    let (new, gone) = t.refresh(&c, &seen, 1000);
    assert_eq!(new.len(), 2);
    assert!(gone.is_empty());
    assert_eq!(t.count(), 2);
    let first = new.iter().find(|d| d.mac == "AA:BB:CC:DD:EE:FF").unwrap();
    assert_eq!((first.ip.as_str(), first.iface.as_str(), first.policy.as_str()), ("192.168.43.2", "ap0", "allowed"));
    assert_eq!((first.first_seen, first.last_seen, first.hostname.clone()), (1000, 1000, None));
    let second = new.iter().find(|d| d.mac == "DE:AD:BE:EF:00:02").unwrap();
    assert_eq!(second.policy, "default");

    // Seen again with a new address: touched, not new.
    let again = vec![arp("192.168.43.20", "AA:BB:CC:DD:EE:FF", "ap0")];
    let (new, gone) = t.refresh(&c, &again, 1500);
    assert!(new.is_empty());
    assert!(gone.is_empty());
    let listed = t.list_with_policy(&c);
    let a = listed.iter().find(|d| d.mac == "AA:BB:CC:DD:EE:FF").unwrap();
    assert_eq!((a.ip.as_str(), a.first_seen, a.last_seen), ("192.168.43.20", 1000, 1500));

    // The unseen one outlives the TTL only up to DEVICE_TTL_SECS.
    let (_, gone) = t.refresh(&c, &vec![], 1000 + DEVICE_TTL_SECS);
    assert!(gone.is_empty());
    let (_, gone) = t.refresh(&c, &vec![], 1000 + DEVICE_TTL_SECS + 1);
    assert_eq!(gone, vec!["DE:AD:BE:EF:00:02"]);
    assert_eq!(t.count(), 1);

    // Switching to global mode ends every session.
    let (new, gone) = t.refresh(&GatewayConfig::default(), &vec![], 1700);
    assert!(new.is_empty());
    assert_eq!(gone, vec!["AA:BB:CC:DD:EE:FF"]);
    assert_eq!(t.count(), 0);
}

#[test]
fn later_neighbour_entry_wins() {
    let c = allowlist();
    let mut t = DeviceTracker::new();
    let seen = vec![arp("192.168.43.2", "AA:BB:CC:DD:EE:FF", "ap0"), arp("192.168.42.2", "AA:BB:CC:DD:EE:FF", "rndis0")];
    let (new, _) = t.refresh(&c, &seen, 10);
    assert_eq!(new.len(), 1);
    assert_eq!((new[0].ip.as_str(), new[0].iface.as_str()), ("192.168.42.2", "rndis0"));
    assert_eq!(t.count(), 1);
}

#[test]
fn listing_recomputes_policy_and_filters_unmanaged() {
    let c = allowlist();
    let mut t = DeviceTracker::new();
    t.refresh(&c, &vec![arp("192.168.43.2", "AA:BB:CC:DD:EE:FF", "ap0"), arp("192.168.42.7", "DE:AD:BE:EF:00:02", "rndis0")], 5);

    let mut now_block = GatewayConfig::default();
    now_block.proxy_mode = ProxyMode::MacBlocklist;
    now_block.managed_ifaces.insert("ap0".to_string());
    now_block.mac_block_list.insert("AA:BB:CC:DD:EE:FF".to_string());
    let listed = t.list_with_policy(&now_block);
    assert_eq!(listed.len(), 1);
    assert_eq!((listed[0].mac.as_str(), listed[0].policy.as_str()), ("AA:BB:CC:DD:EE:FF", "blocked"));
    assert!(t.list_with_policy(&GatewayConfig::default()).is_empty());
}

#[test]
fn neighbours_need_an_ip_address() {
    let table = "IP address       HW type     Flags       HW address            Mask     Device\n\
192.168.43.256   0x1         0x2         aa:bb:cc:dd:ee:01     *        ap0\n\
192.168.043.2    0x1         0x2         aa:bb:cc:dd:ee:02     *        ap0\n\
192.168.43       0x1         0x2         aa:bb:cc:dd:ee:03     *        ap0\n\
bogus            0x1         0x2         aa:bb:cc:dd:ee:04     *        ap0\n\
10.0.0.255       0x1         0x2         aa:bb:cc:dd:ee:05     *        ap0\n\
0.0.0.0          0x1         0x2         aa:bb:cc:dd:ee:06     *        ap0\n\
fe80::1          0x1         0x2         aa:bb:cc:dd:ee:07     *        ap0\n\
fe80:::1         0x1         0x2         aa:bb:cc:dd:ee:08     *        ap0\n";
    let found = DeviceTracker::scan_arp(table, &allowlist());
    let macs: Vec<&str> = found.iter().map(|a| a.mac.as_str()).collect();
    assert_eq!(macs, vec!["AA:BB:CC:DD:EE:05", "AA:BB:CC:DD:EE:06", "AA:BB:CC:DD:EE:07"]);
}

#[test]
fn arp_fields_decide_the_neighbour() {
    let c = allowlist();
    let e = DeviceTracker::arp_entry_of("192.168.43.2".to_string(), "0x2", "AA:BB".to_string(), "ap0".to_string(), &c).unwrap();
    assert_eq!((e.ip.as_str(), e.mac.as_str(), e.iface.as_str()), ("192.168.43.2", "AA:BB", "ap0"));
    let z = "00:00:00:00:00:00".to_string();
    assert!(DeviceTracker::arp_entry_of("192.168.43.2".to_string(), "0x2", z, "ap0".to_string(), &c).is_none());
    for flags in ["0x0", "0x00"] {
        assert!(DeviceTracker::arp_entry_of("192.168.43.2".to_string(), flags, "AA".to_string(), "ap0".to_string(), &c).is_none());
    }
    assert!(DeviceTracker::arp_entry_of("192.168.43.2".to_string(), "0x2", "AA".to_string(), "wlan0".to_string(), &c).is_none());
    assert!(DeviceTracker::arp_entry_of("host".to_string(), "0x2", "AA".to_string(), "ap0".to_string(), &c).is_none());
    assert!(DeviceTracker::arp_entry_of("::1".to_string(), "0x2", "AA".to_string(), "ap0".to_string(), &c).is_some());
}
