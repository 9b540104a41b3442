use vpn_share_proxy::bytes::{host_byte_order, push_u16, push_u32, read_u16, read_u32, u32_to_bytes, ByteOrder};
use vpn_share_proxy::netlink::{classify_nlmsgs, settled_work, NetlinkEvent};
use vpn_share_proxy::routing::{
    ack_outcome, cstr, encode_rule, flush_repeats, hotspot_prefs, install_step, parse_ack, push_rta, FibRuleMsg,
    InstallStep, NetlinkRuleManager, AF_INET,
    AF_INET6, EEXIST, EIO, ENOENT, FLUSH_DELETE_ATTEMPTS, FRA_FWMARK, FRA_FWMASK, FRA_GOTO, FRA_IIFNAME,
    FRA_PRIORITY, FRA_SRC, FRA_SUPPRESS_PREFIXLEN, FRA_TABLE, FR_ACT_GOTO, FR_ACT_NOP, FR_ACT_TO_TBL, FR_ACT_UNSPEC,
    RTM_DELRULE, RTM_NEWRULE,
};
use vpn_share_proxy::types::ProxyMode;

const LE: ByteOrder = ByteOrder::Little;
const NEW_FLAGS: u16 = 0x605;

fn attrs(m: &FibRuleMsg) -> Vec<(u16, Vec<u8>)> {
    m.attrs.iter().map(|a| (a.atype, a.data.clone())).collect()
}

fn le32(x: u32) -> Vec<u8> {
    x.to_le_bytes().to_vec()
}

#[test]
fn integers_in_both_byte_orders() {
    assert_eq!(u32_to_bytes(ByteOrder::Little, 0x0102_0304), vec![4, 3, 2, 1]);
    assert_eq!(u32_to_bytes(ByteOrder::Big, 0x0102_0304), vec![1, 2, 3, 4]);
    let mut b = Vec::new();
    push_u16(&mut b, ByteOrder::Big, 0x0a0b);
    push_u16(&mut b, ByteOrder::Little, 0x0a0b);
    push_u32(&mut b, ByteOrder::Little, 36);
    assert_eq!(b, vec![0x0a, 0x0b, 0x0b, 0x0a, 36, 0, 0, 0]);
    assert_eq!(read_u16(ByteOrder::Little, 0x0b, 0x0a), 0x0a0b);
    assert_eq!(read_u16(ByteOrder::Big, 0x0b, 0x0a), 0x0b0a);
    assert_eq!(read_u32(ByteOrder::Little, 1, 2, 3, 4), 0x0403_0201);
    assert_eq!(read_u32(ByteOrder::Big, 1, 2, 3, 4), 0x0102_0304);
}

#[test]
fn host_order_matches_native_bytes() {
    let o = host_byte_order();
    let native = 0x1234_5678u32.to_ne_bytes().to_vec();
    assert_eq!(u32_to_bytes(o, 0x1234_5678), native);
}

#[test]
fn names_are_nul_terminated() {
    assert_eq!(cstr("lo"), vec![b'l', b'o', 0]);
    assert_eq!(cstr(""), vec![0]);
}

#[test]
fn attributes_are_padded_to_four_bytes() {
    let mut buf = vec![9u8];
    push_rta(&mut buf, LE, FRA_IIFNAME, &vec![1, 2, 3]);
    // rta_len = 4 + 3, then the buffer is padded to a multiple of four.
    assert_eq!(buf, vec![9, 7, 0, 3, 0, 1, 2, 3]);
    let mut buf = Vec::new();
    push_rta(&mut buf, LE, FRA_PRIORITY, &vec![1, 2, 3, 4]);
    assert_eq!(buf, vec![8, 0, 6, 0, 1, 2, 3, 4]);
}

#[test]
fn rule_builders() {
    let g = NetlinkRuleManager::add_goto_iif(LE, AF_INET, "lo", 6000, 5000);
    assert_eq!((g.family, g.msg_type, g.flags, g.action, g.src_len, g.dst_len, g.hdr_table), (2, RTM_NEWRULE, NEW_FLAGS, FR_ACT_GOTO, 0, 0, 0));
    assert_eq!(attrs(&g), vec![(FRA_PRIORITY, le32(5000)), (FRA_GOTO, le32(6000)), (FRA_IIFNAME, b"lo\0".to_vec())]);

    let s = NetlinkRuleManager::add_lookup_suppress(LE, AF_INET6, "tun0", 254, 0, 5010);
    assert_eq!((s.family, s.action, s.hdr_table), (10, FR_ACT_TO_TBL, 254));
    assert_eq!(
        attrs(&s),
        vec![
            (FRA_PRIORITY, le32(5010)),
            (FRA_TABLE, le32(254)),
            (FRA_SUPPRESS_PREFIXLEN, le32(0)),
            (FRA_IIFNAME, b"tun0\0".to_vec()),
        ]
    );

    // A table that does not fit in the header byte is only carried as an attribute.
    let i = NetlinkRuleManager::add_iif_lookup(LE, AF_INET, "ap0", 1038, 5030);
    assert_eq!(i.hdr_table, 0);
    assert_eq!(attrs(&i), vec![(FRA_PRIORITY, le32(5030)), (FRA_TABLE, le32(1038)), (FRA_IIFNAME, b"ap0\0".to_vec())]);
    let i = NetlinkRuleManager::add_iif_lookup(LE, AF_INET, "ap0", 255, 5030);
    assert_eq!(i.hdr_table, 255);

    let f = NetlinkRuleManager::add_fwmark_goto(LE, AF_INET, 0x8000_0001, 0xffff_ffff, 6000, 5028);
    assert_eq!(f.action, FR_ACT_GOTO);
    assert_eq!(
        attrs(&f),
        vec![(FRA_PRIORITY, le32(5028)), (FRA_FWMARK, le32(0x8000_0001)), (FRA_FWMASK, le32(0xffff_ffff)), (FRA_GOTO, le32(6000))]
    );

    let src = NetlinkRuleManager::add_from_lookup_v4(LE, [10, 0, 0, 0], 8, 100, 5030);
    assert_eq!((src.family, src.src_len, src.hdr_table), (AF_INET, 8, 100));
    assert_eq!(attrs(&src)[2], (FRA_SRC, vec![10, 0, 0, 0]));
    let mut fd = [0u8; 16];
    fd[0] = 0xfd;
    let src6 = NetlinkRuleManager::add_from_lookup_v6(LE, fd, 8, 1038, 5040);
    assert_eq!((src6.family, src6.src_len, src6.hdr_table), (AF_INET6, 8, 0));
    assert_eq!(attrs(&src6), vec![(FRA_PRIORITY, le32(5040)), (FRA_TABLE, le32(1038)), (FRA_SRC, fd.to_vec())]);

    let n = NetlinkRuleManager::add_nop(LE, AF_INET, 6000);
    assert_eq!((n.action, n.hdr_table), (FR_ACT_NOP, 0));
    assert_eq!(attrs(&n), vec![(FRA_PRIORITY, le32(6000))]);

    let d = NetlinkRuleManager::del_by_pref(ByteOrder::Big, AF_INET6, 5040);
    assert_eq!((d.family, d.msg_type, d.flags, d.action, d.hdr_table), (10, RTM_DELRULE, 5, FR_ACT_UNSPEC, 0));
    assert_eq!(attrs(&d), vec![(FRA_PRIORITY, 5040u32.to_be_bytes().to_vec())]);
}

#[test]
fn global_ipv4_install_order() {
    let m = NetlinkRuleManager::new();
    let plan = m.apply_ipv4_rules(LE, "tun0", 1038, ProxyMode::Global, &vec!["ap0".to_string()]).rules;
    assert_eq!(plan.len(), 8);
    let prios: Vec<Vec<u8>> = plan.iter().map(|r| r.attrs[0].data.clone()).collect();
    let expected: Vec<Vec<u8>> = [5000u32, 5010, 5020, 5028, 5030, 5040, 5050, 6000].iter().map(|p| le32(*p)).collect();
    assert_eq!(prios, expected);
    assert!(plan.iter().all(|r| r.family == AF_INET && r.msg_type == RTM_NEWRULE));
    assert_eq!(attrs(&plan[2])[2], (FRA_IIFNAME, b"tun0\0".to_vec()));
    assert_eq!((plan[4].src_len, attrs(&plan[4])[2].1.clone()), (8, vec![10, 0, 0, 0]));
    assert_eq!((plan[5].src_len, attrs(&plan[5])[2].1.clone()), (12, vec![172, 16, 0, 0]));
    assert_eq!((plan[6].src_len, attrs(&plan[6])[2].1.clone()), (16, vec![192, 168, 0, 0]));
    assert_eq!(plan[7].action, FR_ACT_NOP);
}

#[test]
fn global_ipv6_install_uses_private_v6_ranges() {
    let plan = NetlinkRuleManager::new().apply_ipv6_rules(LE, "tun0", 1038, ProxyMode::Global, &vec![]).rules;
    assert_eq!(plan.len(), 7);
    assert!(plan.iter().all(|r| r.family == AF_INET6));
    let mut fe80 = vec![0u8; 16];
    fe80[0] = 0xfe;
    fe80[1] = 0x80;
    let mut fd00 = vec![0u8; 16];
    fd00[0] = 0xfd;
    assert_eq!((plan[4].src_len, attrs(&plan[4])[2].1.clone()), (10, fe80));
    assert_eq!((plan[5].src_len, attrs(&plan[5])[2].1.clone()), (8, fd00));
}

#[test]
fn per_interface_install_skips_tunnel_and_loopback() {
    let managed = vec!["ap0".to_string(), "tun0".to_string(), "lo".to_string(), "rndis0".to_string()];
    let plan = NetlinkRuleManager::new().apply_ipv4_rules(LE, "tun0", 1038, ProxyMode::MacAllowlist, &managed).rules;
    assert_eq!(plan.len(), 7);
    assert_eq!(attrs(&plan[4]), vec![(FRA_PRIORITY, le32(5030)), (FRA_TABLE, le32(1038)), (FRA_IIFNAME, b"ap0\0".to_vec())]);
    assert_eq!(attrs(&plan[5]), vec![(FRA_PRIORITY, le32(5040)), (FRA_TABLE, le32(1038)), (FRA_IIFNAME, b"rndis0\0".to_vec())]);
    let none = NetlinkRuleManager::new().apply_ipv4_rules(LE, "tun0", 1038, ProxyMode::MacBlocklist, &vec![]).rules;
    assert_eq!(none.len(), 5);
}

#[test]
fn flush_deletes_every_managed_priority() {
    let prefs = hotspot_prefs();
    assert_eq!(prefs.len(), 32);
    assert_eq!((prefs[0], prefs[1], prefs[31]), (5030, 5040, 5340));
    assert_eq!(NetlinkRuleManager::managed_prefs()[..5], [5000, 5010, 5020, 5028, 6000]);

    let m = NetlinkRuleManager::new();
    let v4 = m.flush_managed_rules(LE, true, false);
    assert_eq!(v4.len(), 37);
    assert!(v4.iter().all(|r| r.msg_type == RTM_DELRULE && r.family == AF_INET));
    let both = m.flush_managed_rules(LE, true, true);
    assert_eq!(both.len(), 74);
    assert_eq!((both[0].family, both[1].family), (AF_INET, AF_INET6));
    assert_eq!(attrs(&both[1]), vec![(FRA_PRIORITY, le32(5000))]);
    assert!(m.flush_managed_rules(LE, false, false).is_empty());
    assert_eq!(FLUSH_DELETE_ATTEMPTS, 16);
}

#[test]
fn encoded_request_layout() {
    let n = NetlinkRuleManager::add_nop(LE, AF_INET, 6000);
    let bytes = encode_rule(LE, &n);
    assert_eq!(
        bytes,
        vec![
            36, 0, 0, 0, // length
            32, 0, // RTM_NEWRULE
            0x05, 0x06, // flags
            1, 0, 0, 0, // sequence
            0, 0, 0, 0, // port id
            2, 0, 0, 0, 0, 0, 0, 3, 0, 0, 0, 0, // fib_rule_hdr
            8, 0, 6, 0, 0x70, 0x17, 0, 0, // FRA_PRIORITY 6000
        ]
    );
    let g = NetlinkRuleManager::add_goto_iif(LE, AF_INET, "lo", 6000, 5000);
    let bytes = encode_rule(LE, &g);
    // header 16 + fib hdr 12 + priority 8 + goto 8 + iifname (4 + 3, padded to 8)
    assert_eq!(bytes.len(), 52);
    assert_eq!(&bytes[..4], &[52, 0, 0, 0]);
    assert_eq!(&bytes[44..], &[7, 0, 3, 0, b'l', b'o', 0, 0]);
}

#[test]
fn acks() {
    assert_eq!(parse_ack(LE, &vec![0u8; 15]), Err(EIO));
    let mut done = vec![0u8; 16];
    done[4] = 3;
    assert_eq!(parse_ack(LE, &done), Ok(()));
    let mut short_err = vec![0u8; 19];
    short_err[4] = 2;
    assert_eq!(parse_ack(LE, &short_err), Err(EIO));
    let mut ok = vec![0u8; 36];
    ok[4] = 2;
    assert_eq!(parse_ack(LE, &ok), Ok(()));
    let mut exists = vec![0u8; 36];
    exists[4] = 2;
    exists[16..20].copy_from_slice(&(-17i32).to_le_bytes());
    assert_eq!(parse_ack(LE, &exists), Err(17));
    let mut be = vec![0u8; 20];
    be[5] = 2;
    be[16..20].copy_from_slice(&(-2i32).to_be_bytes());
    assert_eq!(parse_ack(ByteOrder::Big, &be), Err(2));
}

#[test]
fn ack_outcomes() {
    assert_eq!(ack_outcome(RTM_NEWRULE, Ok(())), Ok(()));
    assert_eq!(ack_outcome(RTM_NEWRULE, Err(EEXIST)), Ok(()));
    assert_eq!(ack_outcome(RTM_DELRULE, Err(EEXIST)), Err(EEXIST));
    assert_eq!(ack_outcome(RTM_DELRULE, Err(ENOENT)), Err(ENOENT));
    assert_eq!(ack_outcome(RTM_NEWRULE, Err(1)), Err(1));
}

fn nlmsg(len: u32, ty: u16, total: usize) -> Vec<u8> {
    let mut m = vec![0u8; total];
    m[..4].copy_from_slice(&len.to_le_bytes());
    m[4..6].copy_from_slice(&ty.to_le_bytes());
    m
}

#[test]
fn netlink_batches_are_classified() {
    assert_eq!(classify_nlmsgs(LE, &nlmsg(16, 16, 16)), (true, false));
    assert_eq!(classify_nlmsgs(LE, &nlmsg(16, 28, 16)), (false, true));
    assert_eq!(classify_nlmsgs(LE, &nlmsg(16, 25, 16)), (true, false));
    // Unknown or malformed batches still count as a network change.
    assert_eq!(classify_nlmsgs(LE, &nlmsg(16, 3, 16)), (true, false));
    assert_eq!(classify_nlmsgs(LE, &nlmsg(8, 28, 16)), (true, false));
    assert_eq!(classify_nlmsgs(LE, &vec![1, 2, 3]), (true, false));
    assert_eq!(classify_nlmsgs(LE, &vec![]), (false, false));
    // Messages are walked at 4-byte aligned offsets.
    let mut two = nlmsg(18, 29, 20);
    two.extend(nlmsg(16, 20, 16));
    assert_eq!(classify_nlmsgs(LE, &two), (true, true));
}

#[test]
fn cleanup_flush_deletes_every_installed_priority() {
    let m = NetlinkRuleManager::new();
    // 32 interfaces with a rule of their own, besides the tunnel and loopback.
    let mut managed: Vec<String> = (0..32).map(|i| format!("ap{}", i)).collect();
    managed.push("tun0".to_string());
    managed.push("lo".to_string());
    for (install, family) in [
        (m.apply_ipv4_rules(LE, "tun0", 1038, ProxyMode::MacBlocklist, &managed), AF_INET),
        (m.apply_ipv6_rules(LE, "tun0", 1038, ProxyMode::Global, &managed), AF_INET6),
        (m.apply_ipv6_rules(LE, "tun0", 1038, ProxyMode::MacAllowlist, &managed), AF_INET6),
    ] {
        let flush = m.flush_managed_rules(LE, true, true);
        for rule in install.rules.iter().chain(install.flush.iter()) {
            assert_eq!(rule.family, family);
            let prio = rule.attrs[0].data.clone();
            assert!(flush.iter().any(|d| d.family == family && d.attrs[0].data == prio));
        }
    }
}

#[test]
fn bytes_read_back() {
    for x in [0u32, 1, 255, 256, 0x1234_5678, u32::MAX] {
        for o in [ByteOrder::Little, ByteOrder::Big] {
            let b = u32_to_bytes(o, x);
            assert_eq!(read_u32(o, b[0], b[1], b[2], b[3]), x);
        }
    }
    let m = NetlinkRuleManager::add_goto_iif(ByteOrder::Big, AF_INET, "tun0", 6000, 5020);
    let e = encode_rule(ByteOrder::Big, &m);
    assert_eq!(read_u32(ByteOrder::Big, e[0], e[1], e[2], e[3]) as usize, e.len());
    assert_eq!(read_u16(ByteOrder::Big, e[4], e[5]), RTM_NEWRULE);
    assert_eq!(read_u16(ByteOrder::Big, e[6], e[7]), NEW_FLAGS);
}

#[test]
fn each_install_starts_with_its_family_flush() {
    let m = NetlinkRuleManager::new();
    let managed = vec!["ap0".to_string()];
    let v4 = m.apply_ipv4_rules(LE, "tun0", 1038, ProxyMode::MacAllowlist, &managed);
    assert!(v4.check_support);
    assert_eq!(v4.flush.len(), 37);
    assert!(v4.flush.iter().all(|d| d.msg_type == RTM_DELRULE && d.family == AF_INET));
    assert_eq!(attrs(&v4.flush[0]), vec![(FRA_PRIORITY, le32(5000))]);
    let v6 = m.apply_ipv6_rules(LE, "tun0", 1038, ProxyMode::MacAllowlist, &managed);
    assert!(!v6.check_support);
    assert_eq!(v6.flush.len(), 37);
    assert!(v6.flush.iter().all(|d| d.msg_type == RTM_DELRULE && d.family == AF_INET6));
}

#[test]
fn install_stops_at_the_first_rejection() {
    assert!(matches!(install_step(0, 8, true), InstallStep::Send(1)));
    assert!(matches!(install_step(6, 8, true), InstallStep::Send(7)));
    assert!(matches!(install_step(7, 8, true), InstallStep::Installed));
    assert!(matches!(install_step(3, 8, false), InstallStep::Stopped));
    assert!(matches!(install_step(7, 8, false), InstallStep::Stopped));
}

#[test]
fn flush_repeats_while_accepted_up_to_the_limit() {
    assert!(flush_repeats(1, true));
    assert!(flush_repeats(15, true));
    assert!(!flush_repeats(16, true));
    assert!(!flush_repeats(1, false));
}

#[test]
fn install_len_counts_the_install() {
    let m = NetlinkRuleManager::new();
    let managed = vec!["ap0".to_string(), "tun0".to_string(), "lo".to_string(), "rndis0".to_string()];
    for mode in [ProxyMode::Global, ProxyMode::MacAllowlist, ProxyMode::MacBlocklist] {
        let v4 = m.apply_ipv4_rules(LE, "tun0", 1038, mode, &managed).rules.len();
        let v6 = m.apply_ipv6_rules(LE, "tun0", 1038, mode, &managed).rules.len();
        assert_eq!(NetlinkRuleManager::install_len(AF_INET, "tun0", mode, &managed), v4);
        assert_eq!(NetlinkRuleManager::install_len(AF_INET6, "tun0", mode, &managed), v6);
    }
    assert_eq!(NetlinkRuleManager::install_len(AF_INET, "tun0", ProxyMode::MacAllowlist, &managed), 7);
    assert_eq!(NetlinkRuleManager::install_len(AF_INET6, "tun0", ProxyMode::Global, &managed), 7);
}

#[test]
fn settled_changes_reconcile_only_for_the_network() {
    let net = settled_work(NetlinkEvent::NetworkChanged);
    assert!(net.reconcile && net.refresh_devices);
    let neigh = settled_work(NetlinkEvent::NeighborChanged);
    assert!(!neigh.reconcile && neigh.refresh_devices);
}
