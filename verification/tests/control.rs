use serde_json::Value;
use vpn_share_proxy::device::DeviceTracker;
use vpn_share_proxy::envelope::{EventFrame, RpcRequest, RpcResponse};
use vpn_share_proxy::ipc::{
    apply_device_policy, decide_device_policy, decide_proxy_mode, invalid_config_message, mark_managed,
    method_not_found_message, parse_action, proxy_mode_set_message, reconcile_now_reply, set_config_reply,
    set_device_policy_reply, set_proxy_mode_reply, subscribed_message, subscription_wants, write_next, PolicyChange,
    RpcAction, WriteStep,
    ABSTRACT_SOCKET_NAME, INTERNAL_ERROR, INVALID_PARAMS, METHOD_NOT_FOUND, PARSE_ERROR,
};
use vpn_share_proxy::types::{DnsRedirectMode, GatewayConfig, NetIfaceInfo, ProxyMode};

#[test]
fn protocol_constants() {
    assert_eq!(ABSTRACT_SOCKET_NAME, "vpn-share-proxy.sock");
    assert_eq!((PARSE_ERROR, METHOD_NOT_FOUND, INVALID_PARAMS, INTERNAL_ERROR), (-32700, -32601, -32602, -1));
}

#[test]
fn actions_by_name() {
    let names = [
        ("get_status", RpcAction::GetStatus),
        ("get_config", RpcAction::GetConfig),
        ("list_interfaces", RpcAction::ListInterfaces),
        ("set_config", RpcAction::SetConfig),
        ("set_proxy_mode", RpcAction::SetProxyMode),
        ("list_devices", RpcAction::ListDevices),
        ("set_device_policy", RpcAction::SetDevicePolicy),
        ("reconcile_now", RpcAction::ReconcileNow),
        ("subscribe", RpcAction::Subscribe),
    ];
    for (n, a) in names {
        assert_eq!(parse_action(n), a);
    }
    assert_eq!(parse_action("Get_Status"), RpcAction::Unknown);
    assert_eq!(parse_action(""), RpcAction::Unknown);
}

#[test]
fn proxy_mode_parameter() {
    assert_eq!(decide_proxy_mode(Some("global")).ok(), Some(ProxyMode::Global));
    assert_eq!(decide_proxy_mode(Some("mac_allowlist")).ok(), Some(ProxyMode::MacAllowlist));
    assert_eq!(decide_proxy_mode(Some("mac_blocklist")).ok(), Some(ProxyMode::MacBlocklist));
    for bad in [Some("Global"), Some(""), None] {
        let e = decide_proxy_mode(bad).err().unwrap();
        assert_eq!(e.code, -32602);
        assert_eq!(e.msg, "Invalid mode: use global/mac_allowlist/mac_blocklist");
    }
    assert_eq!(proxy_mode_set_message("mac_allowlist"), "Proxy mode set to mac_allowlist");
}

#[test]
fn reply_texts() {
    assert_eq!(method_not_found_message("frobnicate"), "Method 'frobnicate' not found");
    assert_eq!(invalid_config_message("bad custom_dns_v4"), "Invalid config (check DNS IP format): bad custom_dns_v4");
    assert_eq!(invalid_config_message("invalid Ipv6 syntax"), "Invalid config (check DNS IP format): invalid Ipv6 syntax");
    assert_eq!(invalid_config_message("missing field"), "Invalid config params: missing field");
}

#[test]
fn device_policy_parameters() {
    let (mac, c) = decide_device_policy(Some("aa:bb:cc:dd:ee:ff"), Some("allow")).ok().unwrap();
    assert_eq!((mac.as_str(), c), ("AA:BB:CC:DD:EE:FF", PolicyChange::Allow));
    assert_eq!(decide_device_policy(Some("x"), Some("block")).ok().unwrap().1, PolicyChange::Block);
    assert_eq!(decide_device_policy(Some("x"), Some("bypass")).ok().unwrap().1, PolicyChange::Block);
    assert_eq!(decide_device_policy(Some("x"), Some("default")).ok().unwrap().1, PolicyChange::Default);
    let e = decide_device_policy(Some("x"), Some("deny")).err().unwrap();
    assert_eq!((e.code, e.msg.as_str()), (-32602, "Invalid policy: use allow/block/bypass/default"));
    let e = decide_device_policy(None, Some("allow")).err().unwrap();
    assert_eq!((e.code, e.msg.as_str()), (-32602, "Missing 'mac' or 'policy' parameter"));
    let e = decide_device_policy(Some("x"), None).err().unwrap();
    assert_eq!(e.msg, "Missing 'mac' or 'policy' parameter");
}

fn edited(mode: ProxyMode, change: PolicyChange) -> GatewayConfig {
    let mut c = GatewayConfig::default();
    c.proxy_mode = mode;
    c.dns_redirect = DnsRedirectMode::Auto;
    c.mac_allow_list.insert("M".to_string());
    c.mac_block_list.insert("M".to_string());
    apply_device_policy(&mut c, &"M".to_string(), change);
    assert_eq!(c.dns_redirect, DnsRedirectMode::Auto);
    c
}

#[test]
fn allow_takes_effect_in_every_mode() {
    for mode in [ProxyMode::Global, ProxyMode::MacAllowlist, ProxyMode::MacBlocklist] {
        let c = edited(mode, PolicyChange::Allow);
        assert_eq!(c.proxy_mode, mode);
        assert!(!c.mac_block_list.contains("M"));
        assert_eq!(DeviceTracker::policy_for_mac("M", &c), "allowed");
    }
    // Outside allowlist mode the allow list is left as it was.
    let mut c = GatewayConfig::default();
    apply_device_policy(&mut c, &"N".to_string(), PolicyChange::Allow);
    assert!(!c.mac_allow_list.contains("N"));
    let mut c = GatewayConfig::default();
    c.proxy_mode = ProxyMode::MacAllowlist;
    apply_device_policy(&mut c, &"N".to_string(), PolicyChange::Allow);
    assert!(c.mac_allow_list.contains("N"));
}

#[test]
fn block_takes_effect_and_moves_global_to_blocklist() {
    let c = edited(ProxyMode::Global, PolicyChange::Block);
    assert_eq!(c.proxy_mode, ProxyMode::MacBlocklist);
    assert!(c.mac_block_list.contains("M"));
    assert!(!c.mac_allow_list.contains("M"));
    assert_eq!(DeviceTracker::policy_for_mac("M", &c), "blocked");
    for mode in [ProxyMode::MacAllowlist, ProxyMode::MacBlocklist] {
        let c = edited(mode, PolicyChange::Block);
        assert_eq!(c.proxy_mode, mode);
        assert_eq!(DeviceTracker::policy_for_mac("M", &c), "blocked");
    }
}

#[test]
fn default_forgets_the_device() {
    for mode in [ProxyMode::Global, ProxyMode::MacAllowlist, ProxyMode::MacBlocklist] {
        let c = edited(mode, PolicyChange::Default);
        assert!(!c.mac_allow_list.contains("M") && !c.mac_block_list.contains("M"));
        assert_eq!(DeviceTracker::policy_for_mac("M", &c), "default");
    }
}

#[test]
fn listing_marks_managed_interfaces() {
    let mut c = GatewayConfig::default();
    c.managed_ifaces.insert("ap0".to_string());
    let info = |n: &str| NetIfaceInfo {
        name: n.to_string(),
        operstate: "up".to_string(),
        recommended: false,
        hint: String::new(),
        managed: true,
    };
    let mut l = vec![info("ap0"), info("wlan0")];
    mark_managed(&mut l, &c);
    assert_eq!((l[0].managed, l[1].managed), (true, false));
    assert_eq!(l[1].name, "wlan0");
}

#[test]
fn answer_and_event_envelopes() {
    let r = RpcResponse::success(Value::from(7), Value::from("x"));
    assert_eq!((r.id, r.code, r.msg.as_str(), r.data), (Value::from(7), 0, "OK", Some(Value::from("x"))));
    let r = RpcResponse::ok(Value::from("a"), "Subscribed to live events".to_string());
    assert_eq!((r.code, r.msg.as_str(), r.data), (0, "Subscribed to live events", None));
    let r = RpcResponse::error(Value::Null, METHOD_NOT_FOUND, method_not_found_message("x"));
    assert_eq!((r.id, r.code, r.msg.as_str(), r.data), (Value::Null, -32601, "Method 'x' not found", None));
    let e = EventFrame::new("vpn_changed", 1_700_000_000, Value::from(true));
    assert_eq!((e.event.as_str(), e.timestamp, e.data), ("vpn_changed", 1_700_000_000, Value::from(true)));
    let q = RpcRequest { id: Value::from(1), action: "subscribe".to_string(), params: Value::Null };
    assert_eq!(parse_action(&q.action), RpcAction::Subscribe);
}

#[test]
fn subscribe_reply_lists_topics() {
    let topics: Vec<String> = ["vpn", "device", "state", "reconcile"].iter().map(|t| t.to_string()).collect();
    assert_eq!(subscribed_message(Some(&topics)), "Subscribed to topics: [vpn, device, state, reconcile]");
    assert_eq!(subscribed_message(Some(&vec!["all".to_string()])), "Subscribed to topics: [all]");
    assert_eq!(subscribed_message(Some(&vec![])), "Subscribed to topics: []");
    assert_eq!(subscribed_message(None), "Subscribed to live events");
}

#[test]
fn subscriptions_get_only_their_topics() {
    let topics: Vec<String> = ["vpn", "device"].iter().map(|t| t.to_string()).collect();
    assert!(subscription_wants(Some(&topics), "vpn_changed"));
    assert!(subscription_wants(Some(&topics), "device_connected"));
    assert!(subscription_wants(Some(&topics), "device_disconnected"));
    assert!(subscription_wants(Some(&topics), "device_policy_changed"));
    assert!(!subscription_wants(Some(&topics), "reconcile_finished"));
    assert!(!subscription_wants(Some(&topics), "state_changed"));
    let all = vec!["all".to_string()];
    assert!(subscription_wants(Some(&all), "reconcile_finished"));
    assert!(subscription_wants(None, "state_changed"));
    assert!(!subscription_wants(Some(&Vec::new()), "vpn_changed"));
    let state = vec!["state".to_string(), "reconcile".to_string()];
    assert!(subscription_wants(Some(&state), "state_changed"));
    assert!(subscription_wants(Some(&state), "reconcile_finished"));
    assert!(!subscription_wants(Some(&state), "vpn"));
}

#[test]
fn answers_echo_the_id_and_report_failures() {
    let id = Value::from(7);
    let r = set_config_reply(id.clone(), None);
    assert_eq!((r.id.clone(), r.code, r.msg.as_str()), (id.clone(), 0, "Configuration saved and applied"));
    let r = set_config_reply(Value::from("a"), Some("disk full"));
    assert_eq!((r.id, r.code, r.msg.as_str()), (Value::from("a"), -1, "Failed saving config: disk full"));
    let r = set_proxy_mode_reply(id.clone(), "global", None);
    assert_eq!((r.code, r.msg.as_str()), (0, "Proxy mode set to global"));
    let r = set_proxy_mode_reply(id.clone(), "global", Some("x"));
    assert_eq!((r.code, r.msg.as_str()), (-1, "Failed saving config: x"));
    let r = set_device_policy_reply(id.clone(), None, None);
    assert_eq!((r.code, r.msg.as_str()), (0, "Device policy updated"));
    let r = set_device_policy_reply(id.clone(), Some("s"), Some("a"));
    assert_eq!((r.code, r.msg.as_str()), (-1, "Failed to save config: s"));
    let r = set_device_policy_reply(id.clone(), None, Some("a"));
    assert_eq!((r.code, r.msg.as_str()), (-1, "Failed to apply policy: a"));
    let r = reconcile_now_reply(id.clone(), Ok(Value::from(true)));
    assert_eq!((r.id.clone(), r.code, r.msg.as_str(), r.data), (id.clone(), 0, "Reconciliation completed", Some(Value::from(true))));
    let r = reconcile_now_reply(id.clone(), Err("boom"));
    assert_eq!((r.code, r.msg.as_str(), r.data), (-1, "Reconciliation failed: boom", None));
}

#[test]
fn configuration_writes_store_then_reconcile_then_announce() {
    for action in [RpcAction::SetConfig, RpcAction::SetProxyMode, RpcAction::SetDevicePolicy] {
        assert_eq!(write_next(action, WriteStep::Save, true), WriteStep::Reconcile);
        assert_eq!(write_next(action, WriteStep::Save, false), WriteStep::Answer);
        assert_eq!(write_next(action, WriteStep::Reconcile, false), WriteStep::Answer);
        assert_eq!(write_next(action, WriteStep::PublishPolicy, true), WriteStep::Answer);
    }
    assert_eq!(write_next(RpcAction::SetDevicePolicy, WriteStep::Reconcile, true), WriteStep::PublishPolicy);
    assert_eq!(write_next(RpcAction::SetConfig, WriteStep::Reconcile, true), WriteStep::Answer);
    assert_eq!(write_next(RpcAction::SetProxyMode, WriteStep::Reconcile, true), WriteStep::Answer);
}
