use vpn_share_proxy::android::{AndroidEnv, IfaceEntry, DEFAULT_MODDIR};
use vpn_share_proxy::config::ConfigManager;

fn props() -> Vec<String> {
    vec![
        "# build properties\n\n ro.build.version.sdk = 33 \nro.product.model=Pixel 7\nbroken line\n".to_string(),
        "ro.product.model=Vendor Model\nro.vendor.only = yes\n".to_string(),
    ]
}

fn entry(name: &str, state: Option<&str>) -> IfaceEntry {
    IfaceEntry { name: name.to_string(), operstate: state.map(|s| s.to_string()) }
}

#[test]
fn properties_come_from_the_first_file_that_has_them() {
    let p = props();
    assert_eq!(AndroidEnv::get_property(&p, "ro.build.version.sdk").as_deref(), Some("33"));
    assert_eq!(AndroidEnv::get_property(&p, "ro.product.model").as_deref(), Some("Pixel 7"));
    assert_eq!(AndroidEnv::get_property(&p, "ro.vendor.only").as_deref(), Some("yes"));
    assert_eq!(AndroidEnv::get_property(&p, "# build properties"), None);
    assert_eq!(AndroidEnv::get_property(&p, "missing"), None);
    assert_eq!(AndroidEnv::get_property(&vec![], "ro.product.model"), None);
    // Only the first '=' splits key and value.
    let eq = vec!["a.b = x=y\n".to_string()];
    assert_eq!(AndroidEnv::get_property(&eq, "a.b").as_deref(), Some("x=y"));
}

#[test]
fn sdk_and_model_fall_back() {
    assert_eq!(AndroidEnv::sdk_version(&props()), 33);
    assert_eq!(AndroidEnv::sdk_version(&vec!["ro.build.version.sdk=thirty\n".to_string()]), 0);
    assert_eq!(AndroidEnv::sdk_version(&vec!["ro.build.version.sdk=+34\n".to_string()]), 34);
    assert_eq!(AndroidEnv::sdk_version(&vec![]), 0);
    assert_eq!(AndroidEnv::device_model(&props()), "Pixel 7");
    assert_eq!(AndroidEnv::device_model(&vec![]), "Android Device");
}

#[test]
fn root_manager_markers_in_priority_order() {
    assert_eq!(AndroidEnv::detect_root_manager(true, true, true), "KernelSU");
    assert_eq!(AndroidEnv::detect_root_manager(false, true, true), "APatch");
    assert_eq!(AndroidEnv::detect_root_manager(false, false, true), "Magisk");
    assert_eq!(AndroidEnv::detect_root_manager(false, false, false), "Root");
}

#[test]
fn vpn_table_from_rt_tables() {
    let rt = "255 local\n254 main\n# 1000 tun9\nabc tun1\n1038 tun0\n1039 wg0\n";
    assert_eq!(AndroidEnv::find_vpn_from_rt_tables(rt), Some(("tun0".to_string(), 1038)));
    assert_eq!(AndroidEnv::find_vpn_from_rt_tables("  1021\twg0  \n"), Some(("wg0".to_string(), 1021)));
    assert_eq!(AndroidEnv::find_vpn_from_rt_tables("255 local\n254 main"), None);
    assert_eq!(AndroidEnv::find_vpn_from_rt_tables(""), None);
}

#[test]
fn table_for_interface() {
    let rt = "255 local\nx tun0\n1038 tun0\n1040 tun0\n";
    assert_eq!(AndroidEnv::get_table_for_iface(rt, "tun0"), Some(1038));
    assert_eq!(AndroidEnv::get_table_for_iface(rt, "local"), Some(255));
    assert_eq!(AndroidEnv::get_table_for_iface(rt, "tun1"), None);
    assert_eq!(AndroidEnv::get_table_for_iface("99999999999 tun0\n", "tun0"), None);
}

#[test]
fn active_tunnel_prefers_an_up_interface() {
    let entries = vec![entry("eth0", Some("up")), entry("tun0", Some("down\n")), entry("wg0", Some("unknown\n"))];
    assert_eq!(AndroidEnv::find_active_tun_iface(&entries, None).as_deref(), Some("wg0"));
    // An unreadable state counts as active.
    let unreadable = vec![entry("tun3", None)];
    assert_eq!(AndroidEnv::find_active_tun_iface(&unreadable, None).as_deref(), Some("tun3"));
    // Otherwise rt_tables decides.
    let down = vec![entry("tun0", Some("down"))];
    assert_eq!(AndroidEnv::find_active_tun_iface(&down, Some("1038 tun1\n")).as_deref(), Some("tun1"));
    assert_eq!(AndroidEnv::find_active_tun_iface(&down, None), None);
}

#[test]
fn hotspots_from_routes_then_candidates() {
    let route = "Iface\tDestination\tGateway\nwlan0\t002BA8C0\t00000000\nap0\t002BA8C0\t00000000\nrndis0\t002AA8C0\t0\nap0\t002BA8C0\t0\neth0\t0000000A\t0\n";
    assert_eq!(AndroidEnv::detect_hotspot_interfaces(Some(route), &vec![]), vec!["ap0", "rndis0"]);
    let states = vec![None, Some("up\n".to_string()), Some("down".to_string()), Some("unknown".to_string()), None, None, Some("up".to_string())];
    assert_eq!(AndroidEnv::detect_hotspot_interfaces(None, &states), vec!["ap0", "swlan0", "bt-pan"]);
    // Route matches win over candidate states.
    assert_eq!(AndroidEnv::detect_hotspot_interfaces(Some(route), &states), vec!["ap0", "rndis0"]);
    // wlan0 alone never counts.
    assert!(AndroidEnv::detect_hotspot_interfaces(Some("wlan0 002BA8C0 0\n"), &vec![]).is_empty());
}

#[test]
fn interface_hints() {
    let wifi = "可能是 Wi-Fi 热点";
    let usb = "可能是 USB 共享";
    let bt = "可能是蓝牙共享";
    assert_eq!(AndroidEnv::iface_hint("wlan2", None), (true, wifi.to_string()));
    assert_eq!(AndroidEnv::iface_hint("WLAN1", None), (true, wifi.to_string()));
    assert_eq!(AndroidEnv::iface_hint("softap0", None), (true, wifi.to_string()));
    assert_eq!(AndroidEnv::iface_hint("rndis1", None), (true, usb.to_string()));
    assert_eq!(AndroidEnv::iface_hint("usb0", None), (true, usb.to_string()));
    assert_eq!(AndroidEnv::iface_hint("bnep0", None), (true, bt.to_string()));
    assert_eq!(AndroidEnv::iface_hint("wlan0", None), (false, String::new()));
    let route = "eth1 002AA8C0 0\nwlan0 002CA8C0 0\n";
    assert_eq!(AndroidEnv::iface_hint("eth1", Some(route)), (true, usb.to_string()));
    assert_eq!(AndroidEnv::iface_hint("wlan0", Some(route)), (true, bt.to_string()));
    assert_eq!(AndroidEnv::iface_hint("eth2", Some(route)), (false, String::new()));
    // The name tests read the lowered name; the route lookup reads the name.
    assert_eq!(AndroidEnv::hint_of_lowered("ap0", "AP0", None), (true, wifi.to_string()));
    assert_eq!(AndroidEnv::hint_of_lowered("x", "wlan1", None), (false, String::new()));
    assert_eq!(AndroidEnv::hint_of_lowered("x", "eth1", Some(route)), (true, usb.to_string()));
    assert_eq!(AndroidEnv::hint_of_lowered("eth1", "x", Some(route)), (false, String::new()));
}

#[test]
fn interface_listing_recommended_first_then_by_name() {
    let entries = vec![
        entry("wlan0", Some("up\n")),
        entry("ap0", Some("unknown")),
        entry("lo", None),
        entry("rndis0", Some(" down ")),
        entry("eth0", Some("up")),
    ];
    let out = AndroidEnv::list_network_interfaces(&entries, None);
    let names: Vec<&str> = out.iter().map(|i| i.name.as_str()).collect();
    assert_eq!(names, vec!["ap0", "rndis0", "eth0", "lo", "wlan0"]);
    assert_eq!(out[0].operstate, "unknown");
    assert!(out[0].recommended);
    assert_eq!(out[1].operstate, "down");
    assert_eq!(out[1].hint, "可能是 USB 共享");
    assert_eq!(out[3].operstate, "unknown");
    assert!(!out[4].recommended);
    assert_eq!(out[4].hint, "");
    assert!(out.iter().all(|i| !i.managed));
    assert!(AndroidEnv::list_network_interfaces(&vec![], None).is_empty());
}

#[test]
fn vpn_dns_defaults() {
    assert_eq!(AndroidEnv::get_vpn_dns(false).as_deref(), Some("1.1.1.1"));
    assert_eq!(AndroidEnv::get_vpn_dns(true).as_deref(), Some("2606:4700:4700::1111"));
}

#[test]
fn config_location() {
    let d = ConfigManager::new(None);
    assert_eq!(d.mod_dir, DEFAULT_MODDIR);
    assert_eq!(d.json_path(), "/data/adb/modules/vpn_share_proxy/config.json");
    assert_eq!(ConfigManager::new(Some("/tmp/m/".to_string())).json_path(), "/tmp/m/config.json");
    assert_eq!(ConfigManager::new(Some("rel".to_string())).json_path(), "rel/config.json");
    assert_eq!(ConfigManager::new(Some(String::new())).json_path(), "config.json");
}
