use vpn_share_proxy::engine::{
    active_entry_steps, commit_active, desired_from, enter_passive, leave, needs_vpn_probe, plan_reconcile, reconcile_report, status_of,
    table_retry_due, ActiveStep, DaemonEvent, ModuleSession, ReconcilePlan, DEFAULT_VPN_TABLE, TABLE_LOOKUP_DELAY_MS,
    TABLE_LOOKUP_RETRIES,
};
use std::hash::Hasher;
use vpn_share_proxy::fingerprint::{push_text, push_texts};
use vpn_share_proxy::types::{GatewayConfig, ProxyMode, RunningState};

fn both_off() -> GatewayConfig {
    let mut c = GatewayConfig::default();
    c.enable_ipv4 = false;
    c.enable_ipv6 = false;
    c
}

/// One full pass, with the FIB installs succeeding for the enabled families.
fn pass(session: &mut ModuleSession, config: GatewayConfig, tun: Option<&str>, table: Option<u32>) -> (ReconcilePlan, bool) {
    let d = desired_from(config, tun.map(|t| t.to_string()), table);
    let plan = plan_reconcile(session, &d);
    let mut flushed = false;
    if let ReconcilePlan::Transition { leave_first } = plan {
        if leave_first {
            flushed = leave(session);
        }
        if d.phase == RunningState::Active {
            let (v4, v6) = (d.enable_v4, d.enable_v6);
            commit_active(session, &d, v4, v6);
        } else {
            enter_passive(session, &d);
        }
    }
    (plan, flushed)
}

#[test]
fn idle_session_has_no_rules() {
    let s = ModuleSession::idle();
    assert_eq!(s.phase, RunningState::Standby);
    assert!(!s.has_rules());
    assert_eq!((s.tun, s.table, s.v4_on, s.v6_on), (None, None, false, false));
}

#[test]
fn desired_state_from_config_and_environment() {
    let d = desired_from(both_off(), Some("tun0".to_string()), Some(7));
    assert_eq!((d.phase, d.sig, d.tun, d.table, d.enable_v4, d.enable_v6), (RunningState::Standby, 0, None, None, false, false));

    let d = desired_from(GatewayConfig::default(), None, None);
    assert_eq!((d.phase, d.sig, d.tun.clone(), d.enable_v4, d.enable_v6), (RunningState::WaitingVpn, 0, None, true, false));

    let d = desired_from(GatewayConfig::default(), Some("tun0".to_string()), None);
    assert_eq!(d.phase, RunningState::Active);
    assert_eq!(d.tun.as_deref(), Some("tun0"));
    assert_eq!(d.table, Some(DEFAULT_VPN_TABLE));
    assert_eq!(d.sig, GatewayConfig::default().signature(Some("tun0"), Some(1038)));
    let d = desired_from(GatewayConfig::default(), Some("tun0".to_string()), Some(1050));
    assert_eq!(d.table, Some(1050));
}

#[test]
fn lookup_helpers() {
    assert!(!needs_vpn_probe(&both_off()));
    assert!(needs_vpn_probe(&GatewayConfig::default()));
    assert!(table_retry_due(0, false));
    assert!(!table_retry_due(0, true));
    assert!(!table_retry_due(TABLE_LOOKUP_RETRIES, false));
    assert_eq!((TABLE_LOOKUP_RETRIES, TABLE_LOOKUP_DELAY_MS), (3, 150));
}

#[test]
fn vpn_up_then_same_config_only_repins() {
    let mut s = ModuleSession::idle();
    let (plan, flushed) = pass(&mut s, GatewayConfig::default(), Some("tun0"), Some(1038));
    assert_eq!(plan, ReconcilePlan::Transition { leave_first: false });
    assert!(!flushed);
    assert_eq!(s.phase, RunningState::Active);
    assert!(s.has_rules());
    assert_eq!((s.tun.as_deref(), s.table, s.v4_on, s.v6_on), (Some("tun0"), Some(1038), true, false));

    let (plan, _) = pass(&mut s, GatewayConfig::default(), Some("tun0"), Some(1038));
    assert_eq!(plan, ReconcilePlan::RepinHooks);
    assert_eq!(s.phase, RunningState::Active);

    // A new tunnel means a different install: leave first, then enter.
    let (plan, flushed) = pass(&mut s, GatewayConfig::default(), Some("tun1"), Some(1040));
    assert_eq!(plan, ReconcilePlan::Transition { leave_first: true });
    assert!(flushed);
    assert_eq!(s.tun.as_deref(), Some("tun1"));
}

#[test]
fn vpn_down_flushes_and_waits() {
    let mut s = ModuleSession::idle();
    pass(&mut s, GatewayConfig::default(), Some("tun0"), None);
    let (plan, flushed) = pass(&mut s, GatewayConfig::default(), None, None);
    assert_eq!(plan, ReconcilePlan::Transition { leave_first: true });
    assert!(flushed);
    assert_eq!(s.phase, RunningState::WaitingVpn);
    assert!(!s.has_rules());
    assert!(s.tun.is_none() && s.table.is_none());

    // Waiting again is a no-op.
    let (plan, _) = pass(&mut s, GatewayConfig::default(), None, None);
    assert_eq!(plan, ReconcilePlan::Noop);
}

#[test]
fn disabling_both_families_goes_to_standby() {
    let mut s = ModuleSession::idle();
    pass(&mut s, GatewayConfig::default(), None, None);
    assert_eq!(s.phase, RunningState::WaitingVpn);
    let (plan, flushed) = pass(&mut s, both_off(), None, None);
    assert_eq!(plan, ReconcilePlan::Transition { leave_first: false });
    assert!(!flushed);
    assert_eq!(s.phase, RunningState::Standby);
    let (plan, _) = pass(&mut s, both_off(), None, None);
    assert_eq!(plan, ReconcilePlan::Noop);
}

#[test]
fn leave_reports_whether_rules_are_flushed() {
    let mut s = ModuleSession::idle();
    s.phase = RunningState::WaitingVpn;
    assert!(!leave(&mut s));
    assert_eq!(s.phase, RunningState::Standby);

    let mut s = ModuleSession::idle();
    pass(&mut s, GatewayConfig::default(), Some("tun0"), Some(1038));
    assert!(leave(&mut s));
    assert_eq!(s.phase, RunningState::Standby);
    assert!(!s.has_rules());
    assert_eq!(s.installed_sig, 0);
}

#[test]
fn events_of_each_entry() {
    let mut s = ModuleSession::idle();
    let d = desired_from(both_off(), None, None);
    assert!(matches!(enter_passive(&mut s, &d), Some(DaemonEvent::StateStandby)));
    let d = desired_from(GatewayConfig::default(), None, None);
    assert!(matches!(enter_passive(&mut s, &d), Some(DaemonEvent::VpnDown)));
    assert_eq!(s.phase, RunningState::WaitingVpn);

    let mut cfg = GatewayConfig::default();
    cfg.enable_ipv6 = true;
    let d = desired_from(cfg, Some("wg0".to_string()), Some(77));
    let evs = commit_active(&mut s, &d, true, false);
    assert_eq!(evs.len(), 2);
    match &evs[0] {
        DaemonEvent::VpnUp { iface, table_id } => assert_eq!((iface.as_str(), *table_id), ("wg0", 77)),
        _ => panic!("expected vpn up"),
    }
    match &evs[1] {
        DaemonEvent::ReconcileFinished { active_tun, rules_count } => {
            // Global mode, IPv4 only: four bypass rules, three ranges, the anchor.
            assert_eq!((active_tun.as_str(), *rules_count), ("wg0", 8))
        }
        _ => panic!("expected reconcile finished"),
    }
    assert_eq!((s.v4_on, s.v6_on), (true, false));

    // Allowlist mode with both families: the tunnel and loopback get no rule
    // of their own, so two interfaces give two lookups per family.
    let mut cfg = GatewayConfig::default();
    cfg.enable_ipv6 = true;
    cfg.proxy_mode = ProxyMode::MacAllowlist;
    for name in ["ap0", "wg0", "lo", "rndis0"] {
        cfg.managed_ifaces.insert(name.to_string());
    }
    let d = desired_from(cfg, Some("wg0".to_string()), Some(77));
    let evs = commit_active(&mut s, &d, true, true);
    match &evs[1] {
        DaemonEvent::ReconcileFinished { rules_count, .. } => assert_eq!(*rules_count, 14),
        _ => panic!("expected reconcile finished"),
    }
    let evs = commit_active(&mut s, &d, false, false);
    match &evs[1] {
        DaemonEvent::ReconcileFinished { rules_count, .. } => assert_eq!(*rules_count, 0),
        _ => panic!("expected reconcile finished"),
    }
}

#[test]
fn signature_follows_the_inputs() {
    let mut a = GatewayConfig::default();
    a.mac_allow_list.insert("B".to_string());
    a.mac_allow_list.insert("A".to_string());
    let mut b = GatewayConfig::default();
    b.mac_allow_list.insert("A".to_string());
    b.mac_allow_list.insert("B".to_string());
    // Insertion order does not matter: the lists are hashed sorted.
    assert_eq!(a.signature(Some("tun0"), Some(1)), b.signature(Some("tun0"), Some(1)));
    assert_ne!(a.signature(Some("tun0"), Some(1)), a.signature(Some("tun1"), Some(1)));
    assert_ne!(a.signature(Some("tun0"), Some(1)), a.signature(Some("tun0"), Some(2)));
    b.proxy_mode = ProxyMode::MacBlocklist;
    assert_ne!(a.signature(None, None), b.signature(None, None));
    // Every input that decides the rules moves the fingerprint.
    let base = GatewayConfig::default().signature(Some("tun0"), Some(1038));
    let mut c = GatewayConfig::default();
    c.custom_dns_v4 = Some([1, 1, 1, 1]);
    assert_ne!(c.signature(Some("tun0"), Some(1038)), base);
    let mut c = GatewayConfig::default();
    c.managed_ifaces.insert("ap0".to_string());
    assert_ne!(c.signature(Some("tun0"), Some(1038)), base);
    let mut c = GatewayConfig::default();
    c.mac_block_list.insert("ap0".to_string());
    assert_ne!(c.signature(Some("tun0"), Some(1038)), base);
    let mut c = GatewayConfig::default();
    c.enable_ipv6 = true;
    assert_ne!(c.signature(Some("tun0"), Some(1038)), base);
    assert_ne!(GatewayConfig::default().signature(Some("tun0"), None), base);
}

#[test]
fn status_reports_the_session() {
    let mut s = ModuleSession::idle();
    pass(&mut s, GatewayConfig::default(), Some("tun0"), Some(1038));
    let st = status_of(&s, vec!["ap0".to_string()], 3, 42, "0.1.0");
    assert_eq!(st.state, RunningState::Active);
    assert_eq!(st.tun_interface.as_deref(), Some("tun0"));
    assert_eq!(st.table_id, Some(1038));
    assert_eq!(st.hotspot_interfaces, vec!["ap0"]);
    assert!(st.ipv4_active && !st.ipv6_active);
    assert_eq!((st.client_count, st.uptime_secs, st.version.as_str()), (3, 42, "0.1.0"));
}

#[test]
fn fingerprint_encoding_and_value() {
    let mut b = vec![7u8];
    push_text(&mut b, "é");
    push_texts(&mut b, &vec!["a".to_string(), "bc".to_string()]);
    assert_eq!(b, vec![7, 0xc3, 0xa9, 0xff, b'a', 0xff, b'b', b'c', 0xff]);
    // Default configuration on tun0 / table 1038, and with neither: std's
    // DefaultHasher over one write of the canonical bytes.
    let config_part = [1u8, 0, 0, 0, 0, 0, 0xfe, 0xfe, 0xfe];
    let mut with = vec![1u8, b't', b'u', b'n', b'0', 0xff, 1, 0x0e, 0x04, 0, 0];
    with.extend_from_slice(&config_part);
    let mut without = vec![0u8, 0];
    without.extend_from_slice(&config_part);
    assert_eq!(GatewayConfig::default().signature(Some("tun0"), Some(1038)), default_hash(&with));
    assert_eq!(GatewayConfig::default().signature(None, None), default_hash(&without));
}

#[test]
fn reconcile_report_of_the_session() {
    let mut s = ModuleSession::idle();
    let r = reconcile_report(&s);
    assert_eq!((r.rules_applied, r.tun, r.table), (false, None, None));
    pass(&mut s, GatewayConfig::default(), Some("tun0"), Some(1038));
    let r = reconcile_report(&s);
    assert_eq!((r.rules_applied, r.tun.as_deref(), r.table), (true, Some("tun0"), Some(1038)));
    pass(&mut s, GatewayConfig::default(), None, None);
    assert!(!reconcile_report(&s).rules_applied);
}

#[test]
fn active_entry_work_order() {
    let mut cfg = GatewayConfig::default();
    cfg.enable_ipv6 = true;
    let d = desired_from(cfg, Some("tun0".to_string()), Some(1038));
    assert_eq!(
        active_entry_steps(&d),
        vec![
            ActiveStep::Forwarding { v4: true, v6: true },
            ActiveStep::InstallV4,
            ActiveStep::InstallV6,
            ActiveStep::ProxyV4,
            ActiveStep::ProxyV6 { enabled: true },
        ]
    );
    let mut cfg = GatewayConfig::default();
    cfg.enable_ipv4 = false;
    cfg.enable_ipv6 = true;
    let d = desired_from(cfg, Some("tun0".to_string()), Some(1038));
    assert_eq!(
        active_entry_steps(&d),
        vec![ActiveStep::Forwarding { v4: false, v6: true }, ActiveStep::InstallV6, ActiveStep::ProxyV6 { enabled: true }]
    );
    let d = desired_from(GatewayConfig::default(), Some("tun0".to_string()), Some(1038));
    assert_eq!(
        active_entry_steps(&d),
        vec![
            ActiveStep::Forwarding { v4: true, v6: false },
            ActiveStep::InstallV4,
            ActiveStep::ProxyV4,
            ActiveStep::ProxyV6 { enabled: false },
        ]
    );
}

fn default_hash(bytes: &[u8]) -> u64 {
    let mut h = std::collections::hash_map::DefaultHasher::new();
    h.write(bytes);
    h.finish()
}
