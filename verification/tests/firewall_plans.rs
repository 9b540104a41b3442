use vpn_share_proxy::firewall::{
    apply_tcpmss_and_reply, dotted_quad_string, find_nf_helper, flush_chain, flush_proxy_chains, keep_deleting,
    nf_helper_candidates, pin_family, resolve_dns_v4, teardown_family, FirewallManager, FwCommand, FwOp,
    NetfilterProbe, PIN_DELETE_ATTEMPTS,
};
use vpn_share_proxy::types::{DnsRedirectMode, GatewayConfig, ProxyMode};

const IPT: &str = "/system/bin/iptables";
const IP6T: &str = "/system/bin/ip6tables";

fn args(c: &FwCommand) -> Vec<&str> {
    c.args.iter().map(|s| s.as_str()).collect()
}

fn probe(v4: bool, v6: bool) -> NetfilterProbe {
    NetfilterProbe { proc_v4: false, proc_v6: v6, sockopt_v4: v4, sockopt_v6: false }
}

fn both_families() -> FirewallManager {
    FirewallManager::new(probe(true, true), Some(IPT.to_string()), Some(IP6T.to_string()))
}

fn v4_only() -> FirewallManager {
    FirewallManager::new(probe(true, false), Some(IPT.to_string()), None)
}

fn pin_family_expected() -> Vec<(FwOp, Vec<&'static str>)> {
    vec![
        (FwOp::DeleteUntilFail, vec!["-w", "2", "-D", "FORWARD", "-j", "VSP_FWD"]),
        (FwOp::Run, vec!["-w", "2", "-N", "VSP_FWD"]),
        (FwOp::Run, vec!["-w", "2", "-I", "FORWARD", "-j", "VSP_FWD"]),
        (FwOp::DeleteUntilFail, vec!["-t", "mangle", "-w", "2", "-D", "PREROUTING", "-j", "VSP_PRE"]),
        (FwOp::Run, vec!["-t", "mangle", "-w", "2", "-N", "VSP_PRE"]),
        (FwOp::Run, vec!["-t", "mangle", "-w", "2", "-I", "PREROUTING", "-j", "VSP_PRE"]),
        (FwOp::DeleteUntilFail, vec!["-t", "nat", "-w", "2", "-D", "PREROUTING", "-j", "VSP_NAT"]),
        (FwOp::Run, vec!["-t", "nat", "-w", "2", "-N", "VSP_NAT"]),
        (FwOp::Run, vec!["-t", "nat", "-w", "2", "-I", "PREROUTING", "-j", "VSP_NAT"]),
    ]
}

fn check(plan: &[FwCommand], bin: &str, expected: &[(FwOp, Vec<&str>)]) {
    assert_eq!(plan.len(), expected.len());
    for (c, (op, a)) in plan.iter().zip(expected.iter()) {
        assert_eq!(c.op, *op);
        assert_eq!(c.bin, bin);
        assert_eq!(&args(c), a);
    }
}

#[test]
fn new_combines_sockopt_and_proc_probes() {
    let m = FirewallManager::new(
        NetfilterProbe { proc_v4: true, proc_v6: false, sockopt_v4: false, sockopt_v6: false },
        None,
        Some(IP6T.to_string()),
    );
    assert!(m.kernel_iptables);
    assert!(!m.kernel_ip6tables);
    assert_eq!(m.ipt_bin, None);
    assert_eq!(m.ip6t_bin.as_deref(), Some(IP6T));
}

#[test]
fn pin_family_pins_three_chains() {
    let mut plan = Vec::new();
    pin_family(&mut plan, &IPT.to_string());
    check(&plan, IPT, &pin_family_expected());
}

#[test]
fn hooks_are_pinned_for_each_usable_family() {
    let plan = both_families().ensure_hooks_pinned();
    assert_eq!(plan.len(), 18);
    check(&plan[..9], IPT, &pin_family_expected());
    check(&plan[9..], IP6T, &pin_family_expected());

    // A family whose kernel tables are missing is left alone.
    let plan = FirewallManager::new(probe(false, true), Some(IPT.to_string()), Some(IP6T.to_string()))
        .ensure_hooks_pinned();
    check(&plan, IP6T, &pin_family_expected());

    let none = FirewallManager::new(probe(true, true), None, None).ensure_hooks_pinned();
    assert!(none.is_empty());
}

#[test]
fn teardown_removes_jumps_then_chains() {
    let mut plan = Vec::new();
    teardown_family(&mut plan, &IPT.to_string());
    let expected = vec![
        (FwOp::Run, vec!["-w", "2", "-D", "FORWARD", "-j", "VSP_FWD"]),
        (FwOp::Run, vec!["-w", "2", "-F", "VSP_FWD"]),
        (FwOp::Run, vec!["-w", "2", "-X", "VSP_FWD"]),
        (FwOp::Run, vec!["-w", "2", "-t", "mangle", "-D", "PREROUTING", "-j", "VSP_PRE"]),
        (FwOp::Run, vec!["-w", "2", "-t", "mangle", "-F", "VSP_PRE"]),
        (FwOp::Run, vec!["-w", "2", "-t", "mangle", "-X", "VSP_PRE"]),
        (FwOp::Run, vec!["-w", "2", "-t", "nat", "-D", "PREROUTING", "-j", "VSP_NAT"]),
        (FwOp::Run, vec!["-w", "2", "-t", "nat", "-F", "VSP_NAT"]),
        (FwOp::Run, vec!["-w", "2", "-t", "nat", "-X", "VSP_NAT"]),
    ];
    check(&plan, IPT, &expected);
}

#[test]
fn cleanup_tears_down_every_family_with_a_helper() {
    // Cleanup does not look at the kernel probes.
    let m = FirewallManager::new(probe(false, false), Some(IPT.to_string()), Some(IP6T.to_string()));
    let plan = m.cleanup();
    assert_eq!(plan.len(), 18);
    assert!(plan[..9].iter().all(|c| c.bin == IPT));
    assert!(plan[9..].iter().all(|c| c.bin == IP6T));
    let only4 = FirewallManager::new(probe(true, true), Some(IPT.to_string()), None).cleanup();
    assert_eq!(only4.len(), 9);
}

#[test]
fn flush_chain_and_proxy_chains() {
    let mut plan = Vec::new();
    flush_chain(&mut plan, &IPT.to_string(), &vec!["-t".to_string(), "nat".to_string()], "VSP_NAT");
    check(&plan, IPT, &[(FwOp::Run, vec!["-t", "nat", "-w", "2", "-F", "VSP_NAT"])]);

    let mut plan = Vec::new();
    flush_proxy_chains(&mut plan, &IPT.to_string());
    check(
        &plan,
        IPT,
        &[
            (FwOp::Run, vec!["-w", "2", "-F", "VSP_FWD"]),
            (FwOp::Run, vec!["-t", "mangle", "-w", "2", "-F", "VSP_PRE"]),
            (FwOp::Run, vec!["-t", "nat", "-w", "2", "-F", "VSP_NAT"]),
        ],
    );
}

#[test]
fn tcpmss_clamp_comes_before_the_reply_accept() {
    let mut plan = Vec::new();
    apply_tcpmss_and_reply(&mut plan, &IPT.to_string(), &"tun0".to_string());
    check(
        &plan,
        IPT,
        &[
            (
                FwOp::Run,
                vec![
                    "-w", "2", "-A", "VSP_FWD", "-o", "tun0", "-p", "tcp", "--tcp-flags", "SYN,RST", "SYN", "-j",
                    "TCPMSS", "--clamp-mss-to-pmtu",
                ],
            ),
            (FwOp::Run, vec!["-w", "2", "-A", "VSP_FWD", "-i", "tun0", "-j", "ACCEPT"]),
        ],
    );
}

#[test]
fn global_ipv4_rules_without_dns() {
    let cfg = GatewayConfig::default();
    let plan = v4_only().apply_proxy_rules(&cfg, &"tun0".to_string());
    // pin (9) + flush (3) + tcpmss/reply (2) + one accept per private range (3)
    assert_eq!(plan.len(), 17);
    assert_eq!(args(&plan[12]), vec!["-w", "2", "-A", "VSP_FWD", "-o", "tun0", "-p", "tcp", "--tcp-flags", "SYN,RST", "SYN", "-j", "TCPMSS", "--clamp-mss-to-pmtu"]);
    assert_eq!(args(&plan[14]), vec!["-w", "2", "-A", "VSP_FWD", "-s", "10.0.0.0/8", "-o", "tun0", "-j", "ACCEPT"]);
    assert_eq!(args(&plan[15]), vec!["-w", "2", "-A", "VSP_FWD", "-s", "172.16.0.0/12", "-o", "tun0", "-j", "ACCEPT"]);
    assert_eq!(args(&plan[16]), vec!["-w", "2", "-A", "VSP_FWD", "-s", "192.168.0.0/16", "-o", "tun0", "-j", "ACCEPT"]);
}

#[test]
fn ipv4_rules_need_helper_and_kernel_tables() {
    let cfg = GatewayConfig::default();
    let no_helper = FirewallManager::new(probe(true, true), None, Some(IP6T.to_string()));
    assert!(no_helper.apply_proxy_rules(&cfg, &"tun0".to_string()).is_empty());
    let no_tables = FirewallManager::new(probe(false, true), Some(IPT.to_string()), None);
    assert!(no_tables.apply_proxy_rules(&cfg, &"tun0".to_string()).is_empty());
}

#[test]
fn global_ipv4_dns_redirect_per_range() {
    let mut cfg = GatewayConfig::default();
    cfg.dns_redirect = DnsRedirectMode::Custom;
    cfg.custom_dns_v4 = Some([9, 9, 9, 9]);
    let plan = v4_only().apply_proxy_rules(&cfg, &"tun0".to_string());
    assert_eq!(plan.len(), 20);
    assert_eq!(
        args(&plan[17]),
        vec![
            "-w", "2", "-t", "nat", "-A", "VSP_NAT", "!", "-i", "tun0", "-m", "mark", "!", "--mark",
            "0x80000001/0xffffffff", "-s", "10.0.0.0/8", "-p", "udp", "--dport", "53", "-j", "DNAT", "--to",
            "9.9.9.9:53",
        ]
    );
    assert_eq!(args(&plan[19])[15], "192.168.0.0/16");
}

#[test]
fn allowlist_ipv4_rules_mark_unlisted_clients() {
    let mut cfg = GatewayConfig::default();
    cfg.proxy_mode = ProxyMode::MacAllowlist;
    cfg.managed_ifaces.insert("rndis0".to_string());
    cfg.managed_ifaces.insert("ap0".to_string());
    cfg.mac_allow_list.insert("AA:BB:CC:DD:EE:FF".to_string());
    cfg.dns_redirect = DnsRedirectMode::Auto;
    let plan = v4_only().apply_proxy_rules(&cfg, &"tun0".to_string());
    // pin 9 + flush 3 + tcpmss 2 + accept per iface 2 + (return + mark) per iface 4 + dnat per iface 2
    assert_eq!(plan.len(), 22);
    // Managed interfaces come in sorted order.
    assert_eq!(args(&plan[14]), vec!["-w", "2", "-A", "VSP_FWD", "-i", "ap0", "-o", "tun0", "-j", "ACCEPT"]);
    assert_eq!(args(&plan[15]), vec!["-w", "2", "-A", "VSP_FWD", "-i", "rndis0", "-o", "tun0", "-j", "ACCEPT"]);
    assert_eq!(
        args(&plan[16]),
        vec!["-w", "2", "-t", "mangle", "-A", "VSP_PRE", "-i", "ap0", "-m", "mac", "--mac-source", "AA:BB:CC:DD:EE:FF", "-j", "RETURN"]
    );
    assert_eq!(
        args(&plan[17]),
        vec!["-w", "2", "-t", "mangle", "-A", "VSP_PRE", "-i", "ap0", "-j", "MARK", "--set-mark", "0x80000001"]
    );
    assert_eq!(args(&plan[18])[7], "rndis0");
    assert_eq!(
        args(&plan[20]),
        vec![
            "-w", "2", "-t", "nat", "-A", "VSP_NAT", "-i", "ap0", "-m", "mark", "!", "--mark", "0x80000001/0xffffffff",
            "-p", "udp", "--dport", "53", "-j", "DNAT", "--to", "1.1.1.1:53",
        ]
    );
}

#[test]
fn blocklist_ipv4_rules_mark_listed_clients() {
    let mut cfg = GatewayConfig::default();
    cfg.proxy_mode = ProxyMode::MacBlocklist;
    cfg.managed_ifaces.insert("ap0".to_string());
    cfg.mac_block_list.insert("11:22:33:44:55:66".to_string());
    let plan = v4_only().apply_proxy_rules(&cfg, &"tun0".to_string());
    assert_eq!(plan.len(), 16);
    assert_eq!(
        args(&plan[15]),
        vec![
            "-w", "2", "-t", "mangle", "-A", "VSP_PRE", "-i", "ap0", "-m", "mac", "--mac-source", "11:22:33:44:55:66",
            "-j", "MARK", "--set-mark", "0x80000001",
        ]
    );
}

#[test]
fn ipv6_off_rejects_client_traffic() {
    let cfg = GatewayConfig::default();
    let plan = both_families().apply_ipv6_proxy_rules(&cfg, &"tun0".to_string(), false);
    // both families pinned (18) + v6 flush (3) + reject per range (2)
    assert_eq!(plan.len(), 23);
    assert!(plan[18..].iter().all(|c| c.bin == IP6T));
    assert_eq!(
        args(&plan[21]),
        vec!["-w", "2", "-A", "VSP_FWD", "-s", "fe80::/10", "-j", "REJECT", "--reject-with", "icmp6-addr-unreachable"]
    );
    assert_eq!(args(&plan[22])[5], "fd00::/8");

    let mut cfg = GatewayConfig::default();
    cfg.proxy_mode = ProxyMode::MacBlocklist;
    cfg.managed_ifaces.insert("ap0".to_string());
    let plan = both_families().apply_ipv6_proxy_rules(&cfg, &"tun0".to_string(), false);
    assert_eq!(plan.len(), 22);
    assert_eq!(
        args(&plan[21]),
        vec!["-w", "2", "-A", "VSP_FWD", "-i", "ap0", "-j", "REJECT", "--reject-with", "icmp6-addr-unreachable"]
    );
}

#[test]
fn ipv6_on_accepts_and_has_no_dns_rules() {
    let mut cfg = GatewayConfig::default();
    cfg.dns_redirect = DnsRedirectMode::Auto;
    let plan = both_families().apply_ipv6_proxy_rules(&cfg, &"tun0".to_string(), true);
    // 18 + 3 + 2 + 2 ranges
    assert_eq!(plan.len(), 25);
    assert_eq!(args(&plan[23]), vec!["-w", "2", "-A", "VSP_FWD", "-s", "fe80::/10", "-o", "tun0", "-j", "ACCEPT"]);
    // Without ip6tables nothing is programmed.
    assert!(v4_only().apply_ipv6_proxy_rules(&cfg, &"tun0".to_string(), true).is_empty());
}

#[test]
fn dns_targets() {
    let mut cfg = GatewayConfig::default();
    assert_eq!(resolve_dns_v4(&cfg), None);
    cfg.dns_redirect = DnsRedirectMode::Custom;
    assert_eq!(resolve_dns_v4(&cfg).as_deref(), Some("8.8.8.8"));
    cfg.custom_dns_v4 = Some([192, 168, 0, 10]);
    assert_eq!(resolve_dns_v4(&cfg).as_deref(), Some("192.168.0.10"));
    cfg.dns_redirect = DnsRedirectMode::Auto;
    assert_eq!(resolve_dns_v4(&cfg).as_deref(), Some("1.1.1.1"));
}

#[test]
fn dotted_quad_formats_every_width() {
    assert_eq!(dotted_quad_string([0, 9, 10, 255]), "0.9.10.255");
    assert_eq!(dotted_quad_string([100, 20, 3, 199]), "100.20.3.199");
}

#[test]
fn helper_lookup_prefers_module_dirs() {
    let c = nf_helper_candidates("iptables");
    assert_eq!(
        c,
        vec![
            "/data/adb/modules/vpn_share_proxy/bin/iptables",
            "/data/adb/modules/vpngw/bin/iptables",
            "/data/adb/modules/vpn_gateway/bin/iptables",
            "/system/bin/iptables",
            "/system/xbin/iptables",
            "/vendor/bin/iptables",
        ]
    );
    let present = vec![false, false, false, true, true, false];
    assert_eq!(find_nf_helper(&c, &present).as_deref(), Some("/system/bin/iptables"));
    assert_eq!(find_nf_helper(&c, &vec![false; 6]), None);
    assert_eq!(find_nf_helper(&c, &vec![]), None);
}

#[test]
fn stale_jumps_are_deleted_a_bounded_number_of_times() {
    assert!(keep_deleting(1, true));
    assert!(!keep_deleting(1, false));
    assert!(!keep_deleting(PIN_DELETE_ATTEMPTS, true));
    assert_eq!(PIN_DELETE_ATTEMPTS, 5);
}

fn accepts_to(c: &FwCommand, tun: &str) -> bool {
    let a = args(c);
    a.last() == Some(&"ACCEPT") && a.windows(2).any(|w| w[0] == "-o" && w[1] == tun)
}

fn is_clamp(c: &FwCommand) -> bool {
    args(c).last() == Some(&"--clamp-mss-to-pmtu")
}

#[test]
fn mss_clamp_comes_before_every_tunnel_accept() {
    let mut cfg = GatewayConfig::default();
    for mode in [ProxyMode::Global, ProxyMode::MacAllowlist] {
        cfg.proxy_mode = mode;
        cfg.managed_ifaces.insert("ap0".to_string());
        for plan in [
            both_families().apply_proxy_rules(&cfg, &"tun0".to_string()),
            both_families().apply_ipv6_proxy_rules(&cfg, &"tun0".to_string(), true),
        ] {
            let clamp = plan.iter().position(is_clamp).unwrap();
            let accepts: Vec<usize> = (0..plan.len()).filter(|&j| accepts_to(&plan[j], "tun0")).collect();
            assert!(!accepts.is_empty());
            assert!(accepts.iter().all(|&j| j > clamp));
        }
    }
}

#[test]
fn ipv6_off_accepts_nothing() {
    let mut cfg = GatewayConfig::default();
    cfg.managed_ifaces.insert("ap0".to_string());
    for mode in [ProxyMode::Global, ProxyMode::MacAllowlist, ProxyMode::MacBlocklist] {
        cfg.proxy_mode = mode;
        let plan = both_families().apply_ipv6_proxy_rules(&cfg, &"tun0".to_string(), false);
        assert!(plan.iter().all(|c| !args(c).contains(&"ACCEPT")));
        assert!(plan.iter().any(|c| args(c).contains(&"REJECT")));
    }
}

fn all_args(plan: &[FwCommand]) -> Vec<Vec<String>> {
    plan.iter().map(|c| c.args.clone()).collect()
}

#[test]
fn managed_interfaces_only_matter_outside_global_mode() {
    let mut with = GatewayConfig::default();
    with.dns_redirect = DnsRedirectMode::Auto;
    with.managed_ifaces.insert("ap0".to_string());
    let mut without = GatewayConfig::default();
    without.dns_redirect = DnsRedirectMode::Auto;
    let fw = both_families();
    let tun = "tun0".to_string();
    assert_eq!(all_args(&fw.apply_proxy_rules(&with, &tun)), all_args(&fw.apply_proxy_rules(&without, &tun)));
    assert_eq!(
        all_args(&fw.apply_ipv6_proxy_rules(&with, &tun, false)),
        all_args(&fw.apply_ipv6_proxy_rules(&without, &tun, false))
    );
    // Allowlist mode with nothing managed: only the common start.
    without.proxy_mode = ProxyMode::MacAllowlist;
    without.dns_redirect = DnsRedirectMode::Off;
    assert_eq!(v4_only().apply_proxy_rules(&without, &tun).len(), 14);
}

#[test]
fn cleanup_removes_every_chain_an_install_uses() {
    let mut cfg = GatewayConfig::default();
    cfg.proxy_mode = ProxyMode::MacAllowlist;
    cfg.dns_redirect = DnsRedirectMode::Auto;
    cfg.managed_ifaces.insert("ap0".to_string());
    cfg.mac_allow_list.insert("AA:BB:CC:DD:EE:FF".to_string());
    let fw = both_families();
    let cleanup = fw.cleanup();
    let tun = "tun0".to_string();
    let mut plans = fw.apply_proxy_rules(&cfg, &tun);
    plans.extend(fw.apply_ipv6_proxy_rules(&cfg, &tun, true));
    plans.extend(fw.apply_ipv6_proxy_rules(&cfg, &tun, false));
    for c in &plans {
        let chain = ["VSP_FWD", "VSP_PRE", "VSP_NAT"].into_iter().find(|ch| args(c).contains(ch)).unwrap();
        assert!(cleanup.iter().any(|d| d.bin == c.bin && args(d).contains(&"-X") && args(d).contains(&chain)));
    }
}
