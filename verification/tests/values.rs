use vpn_share_proxy::strset::{text_lt, StringSet};
use vpn_share_proxy::text::{
    chars_of, find_char, find_newline, is_ip_text, is_ipv4_text, is_ipv6_text, is_ws_char, parse_u32_window, push_dec_u8, skip_ws, split_fields,
    text_contains, text_eq, text_starts_with, trim_end, trim_window, window_eq, window_starts_with, window_string,
};
use vpn_share_proxy::types::{
    default_false, default_true, dns_mode_code, proxy_mode_code, DnsRedirectMode, GatewayConfig, ProxyMode,
    RunningState,
};

#[test]
fn string_set_membership() {
    let mut s = StringSet::new();
    assert!(s.is_empty());
    assert!(s.insert("b".to_string()));
    assert!(s.insert("a".to_string()));
    assert!(!s.insert("b".to_string()));
    assert_eq!(s.len(), 2);
    assert!(s.contains("a") && s.contains("b") && !s.contains("c"));
    assert_eq!(s.to_vec(), vec!["b", "a"]);
    assert_eq!(s.sorted(), vec!["a", "b"]);
    assert!(s.remove("b"));
    assert!(!s.remove("b"));
    assert_eq!(s.to_vec(), vec!["a"]);
    assert!(!s.is_empty());
}

#[test]
fn string_set_from_vec_drops_repeats() {
    let s = StringSet::from_vec(vec!["x".to_string(), "y".to_string(), "x".to_string()]);
    assert_eq!(s.len(), 2);
    assert_eq!(s.to_vec(), vec!["x", "y"]);
    let s = StringSet::from_vec(vec!["wlan1".to_string(), "ap0".to_string(), "Ap0".to_string(), "é".to_string(), "z".to_string()]);
    // Sorted by code point, as `str`'s ordering does.
    assert_eq!(s.sorted(), vec!["Ap0", "ap0", "wlan1", "z", "é"]);
}

#[test]
fn code_point_order() {
    assert!(text_lt("a", "b"));
    assert!(text_lt("ab", "abc"));
    assert!(!text_lt("abc", "ab"));
    assert!(!text_lt("a", "a"));
    assert!(text_lt("Z", "a"));
    assert!(text_lt("z", "é"));
}

#[test]
fn config_defaults() {
    let c = GatewayConfig::default();
    assert!(c.enable_ipv4 && !c.enable_ipv6);
    assert_eq!(c.dns_redirect, DnsRedirectMode::Off);
    assert_eq!(c.proxy_mode, ProxyMode::Global);
    assert_eq!((c.custom_dns_v4, c.custom_dns_v6), (None, None));
    assert!(c.mac_allow_list.is_empty() && c.mac_block_list.is_empty() && c.managed_ifaces.is_empty());
    assert!(default_true());
    assert!(!default_false());
    assert_eq!(ProxyMode::default(), ProxyMode::Global);
    assert_eq!(DnsRedirectMode::default(), DnsRedirectMode::Off);
    assert_ne!(RunningState::Active, RunningState::WaitingVpn);
}

#[test]
fn managed_interfaces_sorted() {
    let mut c = GatewayConfig::default();
    c.managed_ifaces.insert("wlan1".to_string());
    c.managed_ifaces.insert("ap0".to_string());
    c.managed_ifaces.insert("rndis0".to_string());
    assert_eq!(c.managed_ifaces_sorted(), vec!["ap0", "rndis0", "wlan1"]);
}

#[test]
fn variant_codes_are_distinct() {
    assert_eq!((proxy_mode_code(ProxyMode::Global), proxy_mode_code(ProxyMode::MacAllowlist), proxy_mode_code(ProxyMode::MacBlocklist)), (0, 1, 2));
    assert_eq!((dns_mode_code(DnsRedirectMode::Off), dns_mode_code(DnsRedirectMode::Auto), dns_mode_code(DnsRedirectMode::Custom)), (0, 1, 2));
}

#[test]
fn text_scanning() {
    let cs = chars_of("  ab\tc  \nnext");
    assert_eq!(cs.len(), 13);
    assert_eq!(find_newline(&cs, 0), 8);
    assert_eq!(find_newline(&cs, 9), 13);
    assert_eq!(skip_ws(&cs, 0, 8), 2);
    assert_eq!(trim_end(&cs, 0, 8), 6);
    assert_eq!(trim_window(&cs, 0, 8), (2, 6));
    assert_eq!(split_fields(&cs, 0, 8), vec![(2, 4), (5, 6)]);
    assert_eq!(find_char(&cs, 0, 13, 'c'), 5);
    assert_eq!(find_char(&cs, 0, 4, 'c'), 4);
    assert!(window_eq(&cs, 2, 4, &chars_of("ab")));
    assert!(window_starts_with(&cs, 9, 13, &chars_of("ne")));
    assert_eq!(window_string("  ab\tc  \nnext", &cs, 9, 13), "next");
    assert!(is_ws_char('\u{3000}') && is_ws_char('\u{85}') && !is_ws_char('x'));
}

#[test]
fn text_predicates() {
    assert!(text_eq("tun0", "tun0") && !text_eq("tun0", "tun"));
    assert!(text_starts_with("wlan1", "wlan") && !text_starts_with("wl", "wlan"));
    assert!(text_contains("bad custom_dns_v4", "custom_dns") && !text_contains("abc", "abd"));
    assert!(text_contains("x", ""));
}

#[test]
fn number_text() {
    let cs = chars_of("4294967295 4294967296 +7 + 12a");
    assert_eq!(parse_u32_window(&cs, 0, 10), Some(u32::MAX));
    assert_eq!(parse_u32_window(&cs, 11, 21), None);
    assert_eq!(parse_u32_window(&cs, 22, 24), Some(7));
    assert_eq!(parse_u32_window(&cs, 25, 26), None);
    assert_eq!(parse_u32_window(&cs, 27, 30), None);
    assert_eq!(parse_u32_window(&cs, 0, 0), None);
    let mut s = String::from("n=");
    push_dec_u8(&mut s, 7);
    push_dec_u8(&mut s, 42);
    push_dec_u8(&mut s, 255);
    assert_eq!(s, "n=742255");
}

#[test]
fn ipv4_text_matches_the_address_parser() {
    for ok in ["0.0.0.0", "192.168.43.1", "255.255.255.255", "10.0.0.9"] {
        assert!(is_ipv4_text(ok), "{}", ok);
    }
    for bad in ["", "1.2.3", "1.2.3.4.5", "256.1.1.1", "01.2.3.4", "1.2.3.4 ", "+1.2.3.4", "1..3.4", "a.b.c.d", "1.2.3.1000", "fe80::1"] {
        assert!(!is_ipv4_text(bad), "{}", bad);
    }
}

#[test]
fn ipv6_text_matches_the_address_parser() {
    for ok in [
        "::", "::1", "1::", "fe80::1", "1:2:3:4:5:6:7:8", "1:2:3:4:5:6:7::", "::2:3:4:5:6:7:8", "FFFF::abcd",
        "::ffff:192.168.1.1", "1:2:3:4:5:6:1.2.3.4", "64:ff9b::10.0.0.1", "0000:0:00:000:0:0:0:0",
    ] {
        assert!(is_ipv6_text(ok), "{}", ok);
        assert!(is_ip_text(ok), "{}", ok);
    }
    for bad in [
        "", ":", ":::", "1:::2", ":1::2", "1:2:3:4:5:6:7", "1:2:3:4:5:6:7:8:9", "1::2::3", "12345::",
        "1:2:3:4:5:6:7:8::", "1::2:3:4:5:6:7:8", "1.2.3.4::", "::1.2.3.4:5", "1:2:3:4:5:1.2.3.4", "::g",
        "1:2:3:4:5:6:7:1.2.3.4", "::1.2.3.04", "fe80::1%eth0",
    ] {
        assert!(!is_ipv6_text(bad), "{}", bad);
    }
    assert!(is_ip_text("10.0.0.1"));
    assert!(!is_ip_text("10.0.0"));
}
