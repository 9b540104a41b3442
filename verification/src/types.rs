//! The gateway's configuration and the plain records it reports.
use vstd::prelude::*;
use crate::strset::{lemma_sorted_listing_lists, sorted_listing, texts, StringSet};
use crate::bytes::{lemma_u32_roundtrip, push_u32, u32_bytes, ByteOrder};
use crate::fingerprint::{
    lemma_list_code_prefix, lemma_text_code_prefix, push_text, push_texts, text_code, texts_code,
    LIST_END,
};
use std::collections::hash_map::DefaultHasher;
use std::hash::Hasher;
use vstd::std_specs::hash::DefaultHasherAdditionalSpecFns;

verus! {

/// Which hotspot clients are sent through the VPN.
#[derive(Clone, Copy, PartialEq, Eq, Debug, Structural)]
pub enum ProxyMode {
    /// Every client of a private range.
    Global,
    /// Only the listed MAC addresses (others bypass).
    MacAllowlist,
    /// Everyone but the listed MAC addresses.
    MacBlocklist,
}

/// How client DNS queries are redirected.
#[derive(Clone, Copy, PartialEq, Eq, Debug, Structural)]
pub enum DnsRedirectMode {
    Off,
    Auto,
    Custom,
}

/// Running state of the gateway.
#[derive(Clone, Copy, PartialEq, Eq, Debug, Structural)]
pub enum RunningState {
    Standby,
    WaitingVpn,
    Active,
    Error,
}

impl Default for ProxyMode {
    fn default() -> (r: Self)
        ensures
            r == ProxyMode::Global,
    {
        ProxyMode::Global
    }
}

impl Default for DnsRedirectMode {
    fn default() -> (r: Self)
        ensures
            r == DnsRedirectMode::Off,
    {
        DnsRedirectMode::Off
    }
}

/// The declaration index of a proxy mode.
pub open spec fn proxy_mode_index(m: ProxyMode) -> u8 {
    match m {
        ProxyMode::Global => 0,
        ProxyMode::MacAllowlist => 1,
        ProxyMode::MacBlocklist => 2,
    }
}

/// The declaration index of a DNS redirect mode.
pub open spec fn dns_mode_index(m: DnsRedirectMode) -> u8 {
    match m {
        DnsRedirectMode::Off => 0,
        DnsRedirectMode::Auto => 1,
        DnsRedirectMode::Custom => 2,
    }
}

pub fn proxy_mode_code(m: ProxyMode) -> (r: u8)
    ensures
        r == proxy_mode_index(m),
{
    match m {
        ProxyMode::Global => 0,
        ProxyMode::MacAllowlist => 1,
        ProxyMode::MacBlocklist => 2,
    }
}

pub fn dns_mode_code(m: DnsRedirectMode) -> (r: u8)
    ensures
        r == dns_mode_index(m),
{
    match m {
        DnsRedirectMode::Off => 0,
        DnsRedirectMode::Auto => 1,
        DnsRedirectMode::Custom => 2,
    }
}

/// Gateway configuration. Addresses are kept as their octets.
pub struct GatewayConfig {
    pub enable_ipv4: bool,
    pub enable_ipv6: bool,
    pub dns_redirect: DnsRedirectMode,
    pub custom_dns_v4: Option<[u8; 4]>,
    pub custom_dns_v6: Option<[u8; 16]>,
    pub proxy_mode: ProxyMode,
    pub mac_allow_list: StringSet,
    pub mac_block_list: StringSet,
    /// Downstream interfaces under management (used in the allow/block modes only).
    pub managed_ifaces: StringSet,
}

/// Default of `enable_ipv4` when a stored configuration leaves it out.
pub fn default_true() -> (r: bool)
    ensures
        r,
{
    true
}

/// Default of `enable_ipv6` when a stored configuration leaves it out.
pub fn default_false() -> (r: bool)
    ensures
        !r,
{
    false
}

/// 1 for `true`, 0 for `false`.
pub open spec fn bool_byte(b: bool) -> u8 {
    if b {
        1
    } else {
        0
    }
}

pub open spec fn opt_text(o: Option<&str>) -> Option<Seq<char>> {
    match o {
        Some(s) => Some(s@),
        None => None,
    }
}

/// An optional text: 0, or 1 and the text.
pub open spec fn opt_text_code(o: Option<Seq<char>>) -> Seq<u8> {
    match o {
        Some(t) => seq![1u8] + text_code(t),
        None => seq![0u8],
    }
}

/// An optional number: 0, or 1 and its four little-endian bytes.
pub open spec fn opt_u32_code(o: Option<u32>) -> Seq<u8> {
    match o {
        Some(x) => seq![1u8] + u32_bytes(ByteOrder::Little, x),
        None => seq![0u8],
    }
}

/// Optional address octets: 0, or 1 and the octets.
pub open spec fn opt_octets_code(o: Option<Seq<u8>>) -> Seq<u8> {
    match o {
        Some(a) => seq![1u8] + a,
        None => seq![0u8],
    }
}

pub open spec fn opt_octets4(o: Option<[u8; 4]>) -> Option<Seq<u8>> {
    match o {
        Some(a) => Some(a@),
        None => None,
    }
}

pub open spec fn opt_octets16(o: Option<[u8; 16]>) -> Option<Seq<u8>> {
    match o {
        Some(a) => Some(a@),
        None => None,
    }
}

/// Three lists of texts, each closed by `LIST_END`.
pub open spec fn lists_code(a: Seq<Seq<char>>, b: Seq<Seq<char>>, c: Seq<Seq<char>>) -> Seq<u8> {
    texts_code(a) + seq![LIST_END] + (texts_code(b) + seq![LIST_END] + (texts_code(c) + seq![LIST_END]))
}

fn push_opt_text(b: &mut Vec<u8>, o: Option<&str>)
    ensures
        final(b)@ == old(b)@ + opt_text_code(opt_text(o)),
{
    match o {
        Some(t) => {
            b.push(1);
            push_text(b, t);
        },
        None => b.push(0),
    }
    proof {
        assert(b@ =~= old(b)@ + opt_text_code(opt_text(o)));
    }
}

fn push_opt_u32(b: &mut Vec<u8>, o: Option<u32>)
    ensures
        final(b)@ == old(b)@ + opt_u32_code(o),
{
    match o {
        Some(x) => {
            b.push(1);
            push_u32(b, ByteOrder::Little, x);
        },
        None => b.push(0),
    }
    proof {
        assert(b@ =~= old(b)@ + opt_u32_code(o));
    }
}

fn push_octets4(b: &mut Vec<u8>, o: Option<[u8; 4]>)
    ensures
        final(b)@ == old(b)@ + opt_octets_code(opt_octets4(o)),
{
    match o {
        Some(a) => {
            b.push(1);
            b.push(a[0]);
            b.push(a[1]);
            b.push(a[2]);
            b.push(a[3]);
        },
        None => b.push(0),
    }
    proof {
        assert(b@ =~= old(b)@ + opt_octets_code(opt_octets4(o)));
    }
}

fn push_octets16(b: &mut Vec<u8>, o: Option<[u8; 16]>)
    ensures
        final(b)@ == old(b)@ + opt_octets_code(opt_octets16(o)),
{
    match o {
        Some(a) => {
            b.push(1);
            let ghost p = b@;
            let mut k: usize = 0;
            while k < 16
                invariant
                    0 <= k <= 16,
                    b@ == p + a@.take(k as int),
                decreases 16 - k,
            {
                b.push(a[k]);
                proof {
                    assert(a@.take(k + 1) =~= a@.take(k as int).push(a@[k as int]));
                }
                k += 1;
            }
            proof {
                assert(a@.take(16) =~= a@);
            }
        },
        None => b.push(0),
    }
    proof {
        assert(b@ =~= old(b)@ + opt_octets_code(opt_octets16(o)));
    }
}

fn push_lists(b: &mut Vec<u8>, x: &Vec<String>, y: &Vec<String>, z: &Vec<String>)
    ensures
        final(b)@ == old(b)@ + lists_code(texts(x@), texts(y@), texts(z@)),
{
    push_texts(b, x);
    b.push(LIST_END);
    push_texts(b, y);
    b.push(LIST_END);
    push_texts(b, z);
    b.push(LIST_END);
    proof {
        assert(b@ =~= old(b)@ + lists_code(texts(x@), texts(y@), texts(z@)));
    }
}

impl Default for GatewayConfig {
    fn default() -> (r: Self)
        ensures
            r.enable_ipv4,
            !r.enable_ipv6,
            r.dns_redirect == DnsRedirectMode::Off,
            r.custom_dns_v4 == None::<[u8; 4]>,
            r.custom_dns_v6 == None::<[u8; 16]>,
            r.proxy_mode == ProxyMode::Global,
            r.mac_allow_list@ == Set::<Seq<char>>::empty(),
            r.mac_block_list@ == Set::<Seq<char>>::empty(),
            r.managed_ifaces@ == Set::<Seq<char>>::empty(),
    {
        GatewayConfig {
            enable_ipv4: true,
            enable_ipv6: false,
            dns_redirect: DnsRedirectMode::Off,
            custom_dns_v4: None,
            custom_dns_v6: None,
            proxy_mode: ProxyMode::Global,
            mac_allow_list: StringSet::new(),
            mac_block_list: StringSet::new(),
            managed_ifaces: StringSet::new(),
        }
    }
}

impl GatewayConfig {
    /// The managed interfaces in increasing order.
    pub fn managed_ifaces_sorted(&self) -> (r: Vec<String>)
        ensures
            texts(r@) == sorted_listing(self.managed_ifaces@),
            r@.len() == self.managed_ifaces@.len(),
    {
        self.managed_ifaces.sorted()
    }

    /// The canonical bytes of everything that decides the installed rules:
    /// tunnel and table, then the configuration's part.
    pub open spec fn fingerprint_input(&self, tun: Option<Seq<char>>, table: Option<u32>) -> Seq<u8> {
        opt_text_code(tun) + (opt_u32_code(table) + self.config_code())
    }

    /// The configuration's part of the fingerprint input: family switches,
    /// DNS mode and addresses, proxy mode and the three sets in sorted order.
    pub open spec fn config_code(&self) -> Seq<u8> {
        seq![bool_byte(self.enable_ipv4), bool_byte(self.enable_ipv6), dns_mode_index(self.dns_redirect)] + (
        opt_octets_code(opt_octets4(self.custom_dns_v4)) + (opt_octets_code(opt_octets16(self.custom_dns_v6)) + (
        seq![proxy_mode_index(self.proxy_mode)] + lists_code(
            sorted_listing(self.mac_allow_list@),
            sorted_listing(self.mac_block_list@),
            sorted_listing(self.managed_ifaces@),
        ))))
    }

    /// The fingerprint of everything that decides the installed rules.
    pub open spec fn signature_spec(&self, tun: Option<Seq<char>>, table: Option<u32>) -> u64 {
        DefaultHasher::spec_finish(seq![self.fingerprint_input(tun, table)])
    }

    /// Appends the configuration's part of the fingerprint input.
    fn push_config_code(&self, b: &mut Vec<u8>)
        ensures
            final(b)@ == old(b)@ + self.config_code(),
    {
        let allow = self.mac_allow_list.sorted();
        let block = self.mac_block_list.sorted();
        let managed = self.managed_ifaces_sorted();
        let ghost p0 = b@;
        b.push(if self.enable_ipv4 { 1 } else { 0 });
        b.push(if self.enable_ipv6 { 1 } else { 0 });
        b.push(dns_mode_code(self.dns_redirect));
        let ghost p1 = b@;
        push_octets4(b, self.custom_dns_v4);
        push_octets16(b, self.custom_dns_v6);
        let ghost p3 = b@;
        b.push(proxy_mode_code(self.proxy_mode));
        let ghost p4 = b@;
        push_lists(b, &allow, &block, &managed);
        proof {
            let flags = seq![bool_byte(self.enable_ipv4), bool_byte(self.enable_ipv6), dns_mode_index(self.dns_redirect)];
            let l = lists_code(
                sorted_listing(self.mac_allow_list@),
                sorted_listing(self.mac_block_list@),
                sorted_listing(self.managed_ifaces@),
            );
            let m = seq![proxy_mode_index(self.proxy_mode)];
            let o4 = opt_octets_code(opt_octets4(self.custom_dns_v4));
            let o16 = opt_octets_code(opt_octets16(self.custom_dns_v6));
            assert(p1 =~= p0 + flags);
            assert(p4 =~= p3 + m);
            assert(b@ == p0 + flags + o4 + o16 + m + l);
            assert(b@ =~= p0 + (flags + (o4 + (o16 + (m + l)))));
        }
    }

    /// Change-detection fingerprint: std's `DefaultHasher` over the
    /// canonical encoding of the inputs (lists sorted).
    pub fn signature(&self, tun: Option<&str>, table: Option<u32>) -> (r: u64)
        ensures
            r == self.signature_spec(opt_text(tun), table),
    {
        let mut b: Vec<u8> = Vec::new();
        push_opt_text(&mut b, tun);
        push_opt_u32(&mut b, table);
        self.push_config_code(&mut b);
        proof {
            assert(b@ =~= opt_text_code(opt_text(tun)) + (opt_u32_code(table) + self.config_code()));
        }
        let mut h = DefaultHasher::new();
        h.write(b.as_slice());
        proof {
            assert(h@ =~= seq![b@]);
        }
        h.finish()
    }

}

/// One network interface, as offered to the interface picker.
pub struct NetIfaceInfo {
    pub name: String,
    pub operstate: String,
    /// Heuristic hint only.
    pub recommended: bool,
    pub hint: String,
    pub managed: bool,
}

/// A client seen on a managed downstream interface.
pub struct ConnectedDevice {
    /// Address in its canonical text form.
    pub ip: String,
    pub mac: String,
    pub iface: String,
    pub hostname: Option<String>,
    pub policy: String,
    pub first_seen: u64,
    pub last_seen: u64,
}

/// Status of the daemon as reported to clients.
pub struct DaemonStatus {
    pub state: RunningState,
    pub tun_interface: Option<String>,
    pub table_id: Option<u32>,
    pub hotspot_interfaces: Vec<String>,
    pub ipv4_active: bool,
    pub ipv6_active: bool,
    pub client_count: usize,
    pub uptime_secs: u64,
    pub version: String,
}

/// The fingerprint depends on what the configuration holds, not on how its
/// sets happen to be stored: equal contents give equal fingerprints.
pub proof fn law_signature_depends_on_contents(
    a: GatewayConfig,
    b: GatewayConfig,
    tun: Option<Seq<char>>,
    table: Option<u32>,
)
    requires
        a.enable_ipv4 == b.enable_ipv4,
        a.enable_ipv6 == b.enable_ipv6,
        a.dns_redirect == b.dns_redirect,
        a.custom_dns_v4 == b.custom_dns_v4,
        a.custom_dns_v6 == b.custom_dns_v6,
        a.proxy_mode == b.proxy_mode,
        a.mac_allow_list@ == b.mac_allow_list@,
        a.mac_block_list@ == b.mac_block_list@,
        a.managed_ifaces@ == b.managed_ifaces@,
    ensures
        a.signature_spec(tun, table) == b.signature_spec(tun, table),
{
}

proof fn lemma_opt_text_prefix(o1: Option<Seq<char>>, r1: Seq<u8>, o2: Option<Seq<char>>, r2: Seq<u8>)
    requires
        opt_text_code(o1) + r1 == opt_text_code(o2) + r2,
    ensures
        o1 == o2,
        r1 == r2,
{
    let x = opt_text_code(o1) + r1;
    assert(x[0] == opt_text_code(o1)[0] && x[0] == opt_text_code(o2)[0]);
    match (o1, o2) {
        (Some(t1), Some(t2)) => {
            assert(x.drop_first() =~= text_code(t1) + r1);
            assert(x.drop_first() =~= text_code(t2) + r2);
            lemma_text_code_prefix(t1, r1, t2, r2);
        },
        (None, None) => {
            assert(r1 =~= x.drop_first());
            assert(r2 =~= x.drop_first());
        },
        _ => {},
    }
}

proof fn lemma_opt_u32_prefix(o1: Option<u32>, r1: Seq<u8>, o2: Option<u32>, r2: Seq<u8>)
    requires
        opt_u32_code(o1) + r1 == opt_u32_code(o2) + r2,
    ensures
        o1 == o2,
        r1 == r2,
{
    let x = opt_u32_code(o1) + r1;
    assert(x[0] == opt_u32_code(o1)[0] && x[0] == opt_u32_code(o2)[0]);
    match (o1, o2) {
        (Some(v1), Some(v2)) => {
            let b1 = u32_bytes(ByteOrder::Little, v1);
            let b2 = u32_bytes(ByteOrder::Little, v2);
            assert(b1 =~= x.subrange(1, 5));
            assert(b2 =~= x.subrange(1, 5));
            lemma_u32_roundtrip(ByteOrder::Little, v1);
            lemma_u32_roundtrip(ByteOrder::Little, v2);
            assert(r1 =~= x.subrange(5, x.len() as int));
            assert(r2 =~= x.subrange(5, x.len() as int));
        },
        (None, None) => {
            assert(r1 =~= x.drop_first());
            assert(r2 =~= x.drop_first());
        },
        _ => {},
    }
}

proof fn lemma_opt_octets_prefix(o1: Option<Seq<u8>>, r1: Seq<u8>, o2: Option<Seq<u8>>, r2: Seq<u8>, n: int)
    requires
        opt_octets_code(o1) + r1 == opt_octets_code(o2) + r2,
        o1 is Some ==> o1->0.len() == n,
        o2 is Some ==> o2->0.len() == n,
    ensures
        o1 == o2,
        r1 == r2,
{
    let x = opt_octets_code(o1) + r1;
    assert(x[0] == opt_octets_code(o1)[0] && x[0] == opt_octets_code(o2)[0]);
    match (o1, o2) {
        (Some(v1), Some(v2)) => {
            assert(v1 =~= x.subrange(1, n + 1));
            assert(v2 =~= x.subrange(1, n + 1));
            assert(r1 =~= x.subrange(n + 1, x.len() as int));
            assert(r2 =~= x.subrange(n + 1, x.len() as int));
        },
        (None, None) => {
            assert(r1 =~= x.drop_first());
            assert(r2 =~= x.drop_first());
        },
        _ => {},
    }
}

proof fn lemma_set_of_listing(x: StringSet, y: StringSet)
    requires
        sorted_listing(x@) == sorted_listing(y@),
    ensures
        x@ == y@,
{
    x.lemma_view_finite();
    y.lemma_view_finite();
    lemma_sorted_listing_lists(x@);
    lemma_sorted_listing_lists(y@);
}

proof fn lemma_config_code_distinguishes(a: GatewayConfig, b: GatewayConfig)
    requires
        a.config_code() == b.config_code(),
    ensures
        a.enable_ipv4 == b.enable_ipv4,
        a.enable_ipv6 == b.enable_ipv6,
        a.dns_redirect == b.dns_redirect,
        opt_octets4(a.custom_dns_v4) == opt_octets4(b.custom_dns_v4),
        opt_octets16(a.custom_dns_v6) == opt_octets16(b.custom_dns_v6),
        a.proxy_mode == b.proxy_mode,
        sorted_listing(a.mac_allow_list@) == sorted_listing(b.mac_allow_list@),
        sorted_listing(a.mac_block_list@) == sorted_listing(b.mac_block_list@),
        sorted_listing(a.managed_ifaces@) == sorted_listing(b.managed_ifaces@),
{
    let la = lists_code(sorted_listing(a.mac_allow_list@), sorted_listing(a.mac_block_list@), sorted_listing(a.managed_ifaces@));
    let lb = lists_code(sorted_listing(b.mac_allow_list@), sorted_listing(b.mac_block_list@), sorted_listing(b.managed_ifaces@));
    let tail_a = seq![proxy_mode_index(a.proxy_mode)] + la;
    let tail_b = seq![proxy_mode_index(b.proxy_mode)] + lb;
    let d6_a = opt_octets_code(opt_octets16(a.custom_dns_v6)) + tail_a;
    let d6_b = opt_octets_code(opt_octets16(b.custom_dns_v6)) + tail_b;
    let d4_a = opt_octets_code(opt_octets4(a.custom_dns_v4)) + d6_a;
    let d4_b = opt_octets_code(opt_octets4(b.custom_dns_v4)) + d6_b;
    let x = a.config_code();
    assert(x[0] == bool_byte(a.enable_ipv4) && x[1] == bool_byte(a.enable_ipv6) && x[2] == dns_mode_index(a.dns_redirect));
    assert(x[0] == bool_byte(b.enable_ipv4) && x[1] == bool_byte(b.enable_ipv6) && x[2] == dns_mode_index(b.dns_redirect));
    assert(d4_a =~= x.subrange(3, x.len() as int));
    assert(d4_b =~= x.subrange(3, x.len() as int));
    lemma_opt_octets_prefix(opt_octets4(a.custom_dns_v4), d6_a, opt_octets4(b.custom_dns_v4), d6_b, 4);
    lemma_opt_octets_prefix(opt_octets16(a.custom_dns_v6), tail_a, opt_octets16(b.custom_dns_v6), tail_b, 16);
    assert(tail_a[0] == tail_b[0]);
    assert(la =~= tail_a.drop_first());
    assert(lb =~= tail_b.drop_first());
    lemma_lists_code_distinguishes(
        sorted_listing(a.mac_allow_list@),
        sorted_listing(a.mac_block_list@),
        sorted_listing(a.managed_ifaces@),
        sorted_listing(b.mac_allow_list@),
        sorted_listing(b.mac_block_list@),
        sorted_listing(b.managed_ifaces@),
    );
}

proof fn lemma_lists_code_distinguishes(
    a1: Seq<Seq<char>>,
    b1: Seq<Seq<char>>,
    c1: Seq<Seq<char>>,
    a2: Seq<Seq<char>>,
    b2: Seq<Seq<char>>,
    c2: Seq<Seq<char>>,
)
    requires
        lists_code(a1, b1, c1) == lists_code(a2, b2, c2),
    ensures
        a1 == a2,
        b1 == b2,
        c1 == c2,
{
    let e = Seq::<u8>::empty();
    lemma_list_code_prefix(
        a1,
        texts_code(b1) + seq![LIST_END] + (texts_code(c1) + seq![LIST_END]),
        a2,
        texts_code(b2) + seq![LIST_END] + (texts_code(c2) + seq![LIST_END]),
    );
    lemma_list_code_prefix(b1, texts_code(c1) + seq![LIST_END], b2, texts_code(c2) + seq![LIST_END]);
    assert(texts_code(c1) + seq![LIST_END] =~= texts_code(c1) + seq![LIST_END] + e);
    assert(texts_code(c2) + seq![LIST_END] =~= texts_code(c2) + seq![LIST_END] + e);
    lemma_list_code_prefix(c1, e, c2, e);
}

/// The fingerprint input tells configurations apart: two inputs are equal
/// only when the tunnels, the tables and everything in the configurations
/// that decides the installed rules are equal. So any such change changes the
/// fingerprint, unless the 64-bit hash collides.
pub proof fn law_fingerprint_input_distinguishes(
    a: GatewayConfig,
    b: GatewayConfig,
    t1: Option<Seq<char>>,
    t2: Option<Seq<char>>,
    tb1: Option<u32>,
    tb2: Option<u32>,
)
    requires
        a.fingerprint_input(t1, tb1) == b.fingerprint_input(t2, tb2),
    ensures
        t1 == t2,
        tb1 == tb2,
        a.enable_ipv4 == b.enable_ipv4,
        a.enable_ipv6 == b.enable_ipv6,
        a.dns_redirect == b.dns_redirect,
        opt_octets4(a.custom_dns_v4) == opt_octets4(b.custom_dns_v4),
        opt_octets16(a.custom_dns_v6) == opt_octets16(b.custom_dns_v6),
        a.proxy_mode == b.proxy_mode,
        a.mac_allow_list@ == b.mac_allow_list@,
        a.mac_block_list@ == b.mac_block_list@,
        a.managed_ifaces@ == b.managed_ifaces@,
{
    lemma_opt_text_prefix(t1, opt_u32_code(tb1) + a.config_code(), t2, opt_u32_code(tb2) + b.config_code());
    lemma_opt_u32_prefix(tb1, a.config_code(), tb2, b.config_code());
    lemma_config_code_distinguishes(a, b);
    lemma_set_of_listing(a.mac_allow_list, b.mac_allow_list);
    lemma_set_of_listing(a.mac_block_list, b.mac_block_list);
    lemma_set_of_listing(a.managed_ifaces, b.managed_ifaces);
}

} // verus!
