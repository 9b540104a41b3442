//! FIB policy rules over NETLINK_ROUTE: the rule set the gateway installs,
//! the messages that carry it, and the reading of the kernel's answer.
use vstd::prelude::*;
use crate::bytes::{
    lemma_u16_roundtrip, lemma_u32_roundtrip, ByteOrder, push_u16, push_u32, read_u16, read_u32, u16_bytes, u32_bytes, u16_of, u32_of,
    u32_to_bytes,
};
use crate::strset::texts;
use crate::types::ProxyMode;

verus! {

pub const RTM_NEWRULE: u16 = 32;
pub const RTM_DELRULE: u16 = 33;
pub const NLM_F_REQUEST: u16 = 1;
pub const NLM_F_ACK: u16 = 4;
pub const NLM_F_CREATE: u16 = 0x400;
pub const NLM_F_EXCL: u16 = 0x200;
pub const NLMSG_ERROR: u16 = 2;
pub const FR_ACT_UNSPEC: u8 = 0;
pub const FR_ACT_TO_TBL: u8 = 1;
pub const FR_ACT_GOTO: u8 = 2;
pub const FR_ACT_NOP: u8 = 3;
pub const FRA_SRC: u16 = 2;
pub const FRA_IIFNAME: u16 = 3;
pub const FRA_GOTO: u16 = 4;
pub const FRA_PRIORITY: u16 = 6;
pub const FRA_FWMARK: u16 = 10;
pub const FRA_SUPPRESS_PREFIXLEN: u16 = 14;
pub const FRA_TABLE: u16 = 15;
pub const FRA_FWMASK: u16 = 16;
pub const RT_TABLE_MAIN: u32 = 254;
pub const RT_TABLE_UNSPEC: u8 = 0;
pub const PREF_LO_BYPASS: u32 = 5000;
pub const PREF_VPN_RETURN: u32 = 5010;
pub const PREF_VPN_BYPASS: u32 = 5020;
pub const PREF_MAC_BYPASS: u32 = 5028;
pub const PREF_HOTSPOT_BASE: u32 = 5030;
pub const PREF_HOTSPOT_STEP: u32 = 10;
pub const PREF_HOTSPOT_SLOTS: u32 = 32;
pub const PREF_ANCHOR_NOP: u32 = 6000;
pub const FWMARK_BYPASS: u32 = 0x8000_0001;
pub const FWMARK_MASK: u32 = 0xffff_ffff;
/// Linux address family numbers.
pub const AF_INET: u8 = 2;
pub const AF_INET6: u8 = 10;
/// Linux error numbers that the rule exchange tells apart.
pub const ENOENT: i32 = 2;
pub const EIO: i32 = 5;
pub const EEXIST: i32 = 17;
/// How many deletes per priority a flush tries at most.
pub const FLUSH_DELETE_ATTEMPTS: u32 = 16;
/// Flags of a rule creation.
pub const NEW_RULE_FLAGS: u16 = NLM_F_REQUEST | NLM_F_ACK | NLM_F_CREATE | NLM_F_EXCL;
/// Flags of a rule deletion.
pub const DEL_RULE_FLAGS: u16 = NLM_F_REQUEST | NLM_F_ACK;

/// One netlink attribute.
pub struct NlAttr {
    pub atype: u16,
    pub data: Vec<u8>,
}

/// One FIB rule request: `fib_rule_hdr` fields and attributes.
pub struct FibRuleMsg {
    pub family: u8,
    pub msg_type: u16,
    pub flags: u16,
    pub action: u8,
    pub src_len: u8,
    pub dst_len: u8,
    pub hdr_table: u8,
    pub attrs: Vec<NlAttr>,
}

/// A rule request, as plain values.
pub ghost struct RuleView {
    pub family: u8,
    pub msg_type: u16,
    pub flags: u16,
    pub action: u8,
    pub src_len: u8,
    pub dst_len: u8,
    pub hdr_table: u8,
    pub attrs: Seq<(u16, Seq<u8>)>,
}

pub open spec fn attrs_view(a: Seq<NlAttr>) -> Seq<(u16, Seq<u8>)> {
    a.map_values(|x: NlAttr| (x.atype, x.data@))
}

impl FibRuleMsg {
    pub open spec fn view(&self) -> RuleView {
        RuleView {
            family: self.family,
            msg_type: self.msg_type,
            flags: self.flags,
            action: self.action,
            src_len: self.src_len,
            dst_len: self.dst_len,
            hdr_table: self.hdr_table,
            attrs: attrs_view(self.attrs@),
        }
    }
}

pub open spec fn rules_view(v: Seq<FibRuleMsg>) -> Seq<RuleView> {
    v.map_values(|m: FibRuleMsg| m.view())
}

/// The table number carried in the header: itself when it fits a byte.
pub open spec fn hdr_table_of(table: u32) -> u8 {
    if table < 256 {
        table as u8
    } else {
        RT_TABLE_UNSPEC
    }
}

/// NUL-terminated UTF-8 of a name.
pub open spec fn cstr_spec(s: Seq<char>) -> Seq<u8> {
    vstd::utf8::encode_utf8(s).push(0u8)
}

pub open spec fn new_rule(family: u8, action: u8, src_len: u8, hdr_table: u8, attrs: Seq<(u16, Seq<u8>)>) -> RuleView {
    RuleView {
        family,
        msg_type: RTM_NEWRULE,
        flags: NEW_RULE_FLAGS,
        action,
        src_len,
        dst_len: 0,
        hdr_table,
        attrs,
    }
}

/// Look up `table` for packets entering on `iif`.
pub open spec fn iif_lookup_spec(o: ByteOrder, family: u8, iif: Seq<char>, table: u32, priority: u32) -> RuleView {
    new_rule(
        family,
        FR_ACT_TO_TBL,
        0,
        hdr_table_of(table),
        seq![
            (FRA_PRIORITY, u32_bytes(o, priority)),
            (FRA_TABLE, u32_bytes(o, table)),
            (FRA_IIFNAME, cstr_spec(iif)),
        ],
    )
}

/// Jump to the rule at `goto_pref` for packets entering on `iif`.
pub open spec fn goto_iif_spec(o: ByteOrder, family: u8, iif: Seq<char>, goto_pref: u32, priority: u32) -> RuleView {
    new_rule(
        family,
        FR_ACT_GOTO,
        0,
        RT_TABLE_UNSPEC,
        seq![
            (FRA_PRIORITY, u32_bytes(o, priority)),
            (FRA_GOTO, u32_bytes(o, goto_pref)),
            (FRA_IIFNAME, cstr_spec(iif)),
        ],
    )
}

/// Look up `table` for packets entering on `iif`, ignoring routes with a
/// prefix not longer than `suppress`.
pub open spec fn lookup_suppress_spec(
    o: ByteOrder,
    family: u8,
    iif: Seq<char>,
    table: u32,
    suppress: u32,
    priority: u32,
) -> RuleView {
    new_rule(
        family,
        FR_ACT_TO_TBL,
        0,
        hdr_table_of(table),
        seq![
            (FRA_PRIORITY, u32_bytes(o, priority)),
            (FRA_TABLE, u32_bytes(o, table)),
            (FRA_SUPPRESS_PREFIXLEN, u32_bytes(o, suppress)),
            (FRA_IIFNAME, cstr_spec(iif)),
        ],
    )
}

/// Jump to `goto_pref` for packets carrying `mark` under `mask`.
pub open spec fn fwmark_goto_spec(o: ByteOrder, family: u8, mark: u32, mask: u32, goto_pref: u32, priority: u32) -> RuleView {
    new_rule(
        family,
        FR_ACT_GOTO,
        0,
        RT_TABLE_UNSPEC,
        seq![
            (FRA_PRIORITY, u32_bytes(o, priority)),
            (FRA_FWMARK, u32_bytes(o, mark)),
            (FRA_FWMASK, u32_bytes(o, mask)),
            (FRA_GOTO, u32_bytes(o, goto_pref)),
        ],
    )
}

/// Look up `table` for sources in `addr/prefix_len`.
pub open spec fn from_lookup_spec(o: ByteOrder, family: u8, addr: Seq<u8>, prefix_len: u8, table: u32, priority: u32) -> RuleView {
    new_rule(
        family,
        FR_ACT_TO_TBL,
        prefix_len,
        hdr_table_of(table),
        seq![
            (FRA_PRIORITY, u32_bytes(o, priority)),
            (FRA_TABLE, u32_bytes(o, table)),
            (FRA_SRC, addr),
        ],
    )
}

/// The anchor that the bypass rules jump to (no operation).
pub open spec fn nop_spec(o: ByteOrder, family: u8, priority: u32) -> RuleView {
    new_rule(family, FR_ACT_NOP, 0, RT_TABLE_UNSPEC, seq![(FRA_PRIORITY, u32_bytes(o, priority))])
}

/// Delete the rule at `pref`.
pub open spec fn del_by_pref_spec(o: ByteOrder, family: u8, pref: u32) -> RuleView {
    RuleView {
        family,
        msg_type: RTM_DELRULE,
        flags: DEL_RULE_FLAGS,
        action: FR_ACT_UNSPEC,
        src_len: 0,
        dst_len: 0,
        hdr_table: RT_TABLE_UNSPEC,
        attrs: seq![(FRA_PRIORITY, u32_bytes(o, pref))],
    }
}

/// The bypass rules that open every install: loopback and tunnel traffic,
/// and marked client traffic, skip to the anchor; tunnel traffic first looks
/// at the main table for specific routes.
pub open spec fn bypass_rules_spec(o: ByteOrder, family: u8, tun: Seq<char>) -> Seq<RuleView> {
    seq![
        goto_iif_spec(o, family, "lo"@, PREF_ANCHOR_NOP, PREF_LO_BYPASS),
        lookup_suppress_spec(o, family, tun, RT_TABLE_MAIN, 0, PREF_VPN_RETURN),
        goto_iif_spec(o, family, tun, PREF_ANCHOR_NOP, PREF_VPN_BYPASS),
        fwmark_goto_spec(o, family, FWMARK_BYPASS, FWMARK_MASK, PREF_ANCHOR_NOP, PREF_MAC_BYPASS),
    ]
}

/// Per managed interface (skipping the tunnel and loopback), a lookup of the
/// VPN table, at consecutive hotspot priorities from `pref`.
pub open spec fn iface_rules_spec(
    o: ByteOrder,
    family: u8,
    ifaces: Seq<Seq<char>>,
    tun: Seq<char>,
    table: u32,
    pref: int,
) -> Seq<RuleView>
    decreases ifaces.len(),
{
    if ifaces.len() == 0 {
        seq![]
    } else if ifaces[0] == tun || ifaces[0] == "lo"@ {
        iface_rules_spec(o, family, ifaces.drop_first(), tun, table, pref)
    } else {
        seq![iif_lookup_spec(o, family, ifaces[0], table, pref as u32)] + iface_rules_spec(
            o,
            family,
            ifaces.drop_first(),
            tun,
            table,
            pref + PREF_HOTSPOT_STEP,
        )
    }
}

pub open spec fn v4_ranges() -> Seq<(Seq<u8>, u8)> {
    seq![(seq![10u8, 0u8, 0u8, 0u8], 8u8), (seq![172u8, 16u8, 0u8, 0u8], 12u8), (seq![192u8, 168u8, 0u8, 0u8], 16u8)]
}

pub open spec fn v6_ranges() -> Seq<(Seq<u8>, u8)> {
    seq![
        (seq![0xfeu8, 0x80u8, 0u8, 0u8, 0u8, 0u8, 0u8, 0u8, 0u8, 0u8, 0u8, 0u8, 0u8, 0u8, 0u8, 0u8], 10u8),
        (seq![0xfdu8, 0u8, 0u8, 0u8, 0u8, 0u8, 0u8, 0u8, 0u8, 0u8, 0u8, 0u8, 0u8, 0u8, 0u8, 0u8], 8u8),
    ]
}

/// Per private source range, a lookup of the VPN table at consecutive
/// hotspot priorities.
pub open spec fn range_rules_spec(o: ByteOrder, family: u8, ranges: Seq<(Seq<u8>, u8)>, table: u32) -> Seq<RuleView> {
    Seq::new(
        ranges.len(),
        |i: int|
            from_lookup_spec(
                o,
                family,
                ranges[i].0,
                ranges[i].1,
                table,
                (PREF_HOTSPOT_BASE + i * PREF_HOTSPOT_STEP) as u32,
            ),
    )
}

/// The whole install of one family, in sending order.
pub open spec fn family_rules_spec(
    o: ByteOrder,
    family: u8,
    ranges: Seq<(Seq<u8>, u8)>,
    tun: Seq<char>,
    table: u32,
    mode: ProxyMode,
    managed: Seq<Seq<char>>,
) -> Seq<RuleView> {
    bypass_rules_spec(o, family, tun) + (match mode {
        ProxyMode::Global => range_rules_spec(o, family, ranges, table),
        _ => iface_rules_spec(o, family, managed, tun, table, PREF_HOTSPOT_BASE as int),
    }) + seq![nop_spec(o, family, PREF_ANCHOR_NOP)]
}

/// How many of `ifaces` get a rule of their own: all but the tunnel and
/// loopback.
pub open spec fn own_rule_count(ifaces: Seq<Seq<char>>, tun: Seq<char>) -> nat
    decreases ifaces.len(),
{
    if ifaces.len() == 0 {
        0
    } else {
        (if ifaces[0] == tun || ifaces[0] == "lo"@ {
            0nat
        } else {
            1nat
        }) + own_rule_count(ifaces.drop_first(), tun)
    }
}

/// How many requests the install of a family sends: the four bypass rules,
/// one lookup per private range (global mode) or per interface with a rule
/// of its own, and the anchor.
pub open spec fn install_len_spec(family: u8, tun: Seq<char>, mode: ProxyMode, managed: Seq<Seq<char>>) -> nat {
    5 + match mode {
        ProxyMode::Global => family_ranges(family).len(),
        _ => own_rule_count(managed, tun),
    }
}

/// The priorities of the hotspot slots.
pub open spec fn hotspot_prefs_spec() -> Seq<u32> {
    Seq::new(PREF_HOTSPOT_SLOTS as nat, |i: int| (PREF_HOTSPOT_BASE + i * PREF_HOTSPOT_STEP) as u32)
}

/// The managed priorities: the fixed ones, then the hotspot slots.
pub open spec fn managed_prefs_spec() -> Seq<u32> {
    seq![5000u32, 5010u32, 5020u32, 5028u32, 6000u32] + hotspot_prefs_spec()
}

/// The priorities of the hotspot slots, in increasing order.
pub fn hotspot_prefs() -> (r: Vec<u32>)
    ensures
        r@ == hotspot_prefs_spec(),
{
    let mut r: Vec<u32> = Vec::new();
    let mut i: u32 = 0;
    while i < PREF_HOTSPOT_SLOTS
        invariant
            0 <= i <= PREF_HOTSPOT_SLOTS,
            r@ == Seq::new(i as nat, |k: int| (PREF_HOTSPOT_BASE + k * PREF_HOTSPOT_STEP) as u32),
        decreases PREF_HOTSPOT_SLOTS - i,
    {
        r.push(PREF_HOTSPOT_BASE + i * PREF_HOTSPOT_STEP);
        proof {
            assert(r@ =~= Seq::new((i + 1) as nat, |k: int| (PREF_HOTSPOT_BASE + k * PREF_HOTSPOT_STEP) as u32));
        }
        i += 1;
    }
    r
}

/// Deletes of the flush, in order: for each managed priority, the IPv4 one
/// (when asked) then the IPv6 one (when asked). Each is repeated while the
/// kernel accepts it, at most `FLUSH_DELETE_ATTEMPTS` times.
/// One step of the flush: the deletes of priority `p`, IPv4 first.
pub open spec fn flush_step(o: ByteOrder, v4: bool, v6: bool) -> spec_fn(Seq<RuleView>, u32) -> Seq<RuleView> {
    |acc: Seq<RuleView>, p: u32|
        acc + (if v4 {
            seq![del_by_pref_spec(o, AF_INET, p)]
        } else {
            seq![]
        }) + (if v6 {
            seq![del_by_pref_spec(o, AF_INET6, p)]
        } else {
            seq![]
        })
}

pub open spec fn flush_spec(o: ByteOrder, v4: bool, v6: bool) -> Seq<RuleView> {
    managed_prefs_spec().fold_left(Seq::<RuleView>::empty(), flush_step(o, v4, v6))
}

fn attr(atype: u16, data: Vec<u8>) -> (r: NlAttr)
    ensures
        r.atype == atype,
        r.data@ == data@,
{
    NlAttr { atype, data }
}

/// NUL-terminated UTF-8 bytes of a name.
pub fn cstr(s: &str) -> (r: Vec<u8>)
    ensures
        r@ == cstr_spec(s@),
{
    let mut v = s.as_bytes_vec();
    v.push(0);
    v
}

fn hdr_table(table: u32) -> (r: u8)
    ensures
        r == hdr_table_of(table),
{
    if table < 256 {
        table as u8
    } else {
        RT_TABLE_UNSPEC
    }
}

fn mk_new_rule(family: u8, action: u8, src_len: u8, hdr: u8, attrs: Vec<NlAttr>) -> (r: FibRuleMsg)
    ensures
        r.view() == new_rule(family, action, src_len, hdr, attrs_view(attrs@)),
{
    FibRuleMsg { family, msg_type: RTM_NEWRULE, flags: NEW_RULE_FLAGS, action, src_len, dst_len: 0, hdr_table: hdr, attrs }
}

impl NetlinkRuleManager {
    /// The request that sends packets arriving on `iif` to `table`.
    pub fn add_iif_lookup(o: ByteOrder, family: u8, iif: &str, table: u32, priority: u32) -> (r: FibRuleMsg)
        ensures
            r.view() == iif_lookup_spec(o, family, iif@, table, priority),
    {
        let attrs = vec![
            attr(FRA_PRIORITY, u32_to_bytes(o, priority)),
            attr(FRA_TABLE, u32_to_bytes(o, table)),
            attr(FRA_IIFNAME, cstr(iif)),
        ];
        proof {
            assert(attrs_view(attrs@) =~= iif_lookup_spec(o, family, iif@, table, priority).attrs);
        }
        mk_new_rule(family, FR_ACT_TO_TBL, 0, hdr_table(table), attrs)
    }

    /// The request that makes packets arriving on `iif` jump to the rule at `goto_pref`.
    pub fn add_goto_iif(o: ByteOrder, family: u8, iif: &str, goto_pref: u32, priority: u32) -> (r: FibRuleMsg)
        ensures
            r.view() == goto_iif_spec(o, family, iif@, goto_pref, priority),
    {
        let attrs = vec![
            attr(FRA_PRIORITY, u32_to_bytes(o, priority)),
            attr(FRA_GOTO, u32_to_bytes(o, goto_pref)),
            attr(FRA_IIFNAME, cstr(iif)),
        ];
        proof {
            assert(attrs_view(attrs@) =~= goto_iif_spec(o, family, iif@, goto_pref, priority).attrs);
        }
        mk_new_rule(family, FR_ACT_GOTO, 0, RT_TABLE_UNSPEC, attrs)
    }

    /// The request that looks packets arriving on `iif` up in `table`, suppressing routes with prefix length up to `suppress`.
    pub fn add_lookup_suppress(o: ByteOrder, family: u8, iif: &str, table: u32, suppress: u32, priority: u32) -> (r: FibRuleMsg)
        ensures
            r.view() == lookup_suppress_spec(o, family, iif@, table, suppress, priority),
    {
        let attrs = vec![
            attr(FRA_PRIORITY, u32_to_bytes(o, priority)),
            attr(FRA_TABLE, u32_to_bytes(o, table)),
            attr(FRA_SUPPRESS_PREFIXLEN, u32_to_bytes(o, suppress)),
            attr(FRA_IIFNAME, cstr(iif)),
        ];
        proof {
            assert(attrs_view(attrs@) =~= lookup_suppress_spec(o, family, iif@, table, suppress, priority).attrs);
        }
        mk_new_rule(family, FR_ACT_TO_TBL, 0, hdr_table(table), attrs)
    }

    /// The request that makes packets whose mark matches `mark`/`mask` jump to the rule at `goto_pref`.
    pub fn add_fwmark_goto(o: ByteOrder, family: u8, mark: u32, mask: u32, goto_pref: u32, priority: u32) -> (r: FibRuleMsg)
        ensures
            r.view() == fwmark_goto_spec(o, family, mark, mask, goto_pref, priority),
    {
        let attrs = vec![
            attr(FRA_PRIORITY, u32_to_bytes(o, priority)),
            attr(FRA_FWMARK, u32_to_bytes(o, mark)),
            attr(FRA_FWMASK, u32_to_bytes(o, mask)),
            attr(FRA_GOTO, u32_to_bytes(o, goto_pref)),
        ];
        proof {
            assert(attrs_view(attrs@) =~= fwmark_goto_spec(o, family, mark, mask, goto_pref, priority).attrs);
        }
        mk_new_rule(family, FR_ACT_GOTO, 0, RT_TABLE_UNSPEC, attrs)
    }

    fn add_from_lookup(o: ByteOrder, family: u8, addr: Vec<u8>, prefix_len: u8, table: u32, priority: u32) -> (r: FibRuleMsg)
        ensures
            r.view() == from_lookup_spec(o, family, addr@, prefix_len, table, priority),
    {
        let ghost a = addr@;
        let attrs = vec![
            attr(FRA_PRIORITY, u32_to_bytes(o, priority)),
            attr(FRA_TABLE, u32_to_bytes(o, table)),
            attr(FRA_SRC, addr),
        ];
        proof {
            assert(attrs_view(attrs@) =~= from_lookup_spec(o, family, a, prefix_len, table, priority).attrs);
        }
        mk_new_rule(family, FR_ACT_TO_TBL, prefix_len, hdr_table(table), attrs)
    }

    /// The request that sends IPv4 packets from `ip`/`prefix_len` to `table`.
    pub fn add_from_lookup_v4(o: ByteOrder, ip: [u8; 4], prefix_len: u8, table: u32, priority: u32) -> (r: FibRuleMsg)
        ensures
            r.view() == from_lookup_spec(o, AF_INET, ip@, prefix_len, table, priority),
    {
        let v = vec![ip[0], ip[1], ip[2], ip[3]];
        proof {
            assert(v@ =~= ip@);
        }
        Self::add_from_lookup(o, AF_INET, v, prefix_len, table, priority)
    }

    /// The request that sends IPv6 packets from `ip`/`prefix_len` to `table`.
    pub fn add_from_lookup_v6(o: ByteOrder, ip: [u8; 16], prefix_len: u8, table: u32, priority: u32) -> (r: FibRuleMsg)
        ensures
            r.view() == from_lookup_spec(o, AF_INET6, ip@, prefix_len, table, priority),
    {
        let mut v: Vec<u8> = Vec::new();
        let mut k: usize = 0;
        while k < 16
            invariant
                0 <= k <= 16,
                v@ == ip@.take(k as int),
            decreases 16 - k,
        {
            v.push(ip[k]);
            proof {
                assert(ip@.take(k + 1) =~= ip@.take(k as int).push(ip@[k as int]));
            }
            k += 1;
        }
        proof {
            assert(ip@.take(16) =~= ip@);
        }
        Self::add_from_lookup(o, AF_INET6, v, prefix_len, table, priority)
    }

    /// The request that adds the no-op anchor rule at `priority`.
    pub fn add_nop(o: ByteOrder, family: u8, priority: u32) -> (r: FibRuleMsg)
        ensures
            r.view() == nop_spec(o, family, priority),
    {
        let attrs = vec![attr(FRA_PRIORITY, u32_to_bytes(o, priority))];
        proof {
            assert(attrs_view(attrs@) =~= nop_spec(o, family, priority).attrs);
        }
        mk_new_rule(family, FR_ACT_NOP, 0, RT_TABLE_UNSPEC, attrs)
    }

    /// The request that deletes one rule at priority `pref`.
    pub fn del_by_pref(o: ByteOrder, family: u8, pref: u32) -> (r: FibRuleMsg)
        ensures
            r.view() == del_by_pref_spec(o, family, pref),
    {
        let attrs = vec![attr(FRA_PRIORITY, u32_to_bytes(o, pref))];
        proof {
            assert(attrs_view(attrs@) =~= del_by_pref_spec(o, family, pref).attrs);
        }
        FibRuleMsg {
            family,
            msg_type: RTM_DELRULE,
            flags: DEL_RULE_FLAGS,
            action: FR_ACT_UNSPEC,
            src_len: 0,
            dst_len: 0,
            hdr_table: RT_TABLE_UNSPEC,
            attrs,
        }
    }
}

fn push_rule(plan: &mut Vec<FibRuleMsg>, m: FibRuleMsg)
    ensures
        rules_view(final(plan)@) == rules_view(old(plan)@).push(m.view()),
{
    plan.push(m);
    proof {
        assert(rules_view(plan@) =~= rules_view(old(plan)@).push(m.view()));
    }
}

fn push_bypass_rules(plan: &mut Vec<FibRuleMsg>, o: ByteOrder, family: u8, tun: &str)
    ensures
        rules_view(final(plan)@) == rules_view(old(plan)@) + bypass_rules_spec(o, family, tun@),
{
    let ghost p0 = rules_view(plan@);
    push_rule(plan, NetlinkRuleManager::add_goto_iif(o, family, "lo", PREF_ANCHOR_NOP, PREF_LO_BYPASS));
    push_rule(plan, NetlinkRuleManager::add_lookup_suppress(o, family, tun, RT_TABLE_MAIN, 0, PREF_VPN_RETURN));
    push_rule(plan, NetlinkRuleManager::add_goto_iif(o, family, tun, PREF_ANCHOR_NOP, PREF_VPN_BYPASS));
    push_rule(plan, NetlinkRuleManager::add_fwmark_goto(o, family, FWMARK_BYPASS, FWMARK_MASK, PREF_ANCHOR_NOP, PREF_MAC_BYPASS));
    proof {
        assert(rules_view(plan@) =~= p0 + bypass_rules_spec(o, family, tun@));
    }
}

fn push_iface_rules(plan: &mut Vec<FibRuleMsg>, o: ByteOrder, family: u8, managed: &Vec<String>, tun: &str, table: u32)
    requires
        managed@.len() * 10 + 5030 <= u32::MAX,
    ensures
        rules_view(final(plan)@) == rules_view(old(plan)@) + iface_rules_spec(
            o,
            family,
            texts(managed@),
            tun@,
            table,
            PREF_HOTSPOT_BASE as int,
        ),
{
    let ghost p0 = rules_view(plan@);
    let ghost all = iface_rules_spec(o, family, texts(managed@), tun@, table, PREF_HOTSPOT_BASE as int);
    let ghost mut done: Seq<RuleView> = seq![];
    let mut pref = PREF_HOTSPOT_BASE;
    let mut i: usize = 0;
    let tc = crate::text::chars_of(tun);
    let lo = crate::text::chars_of("lo");
    proof {
        assert(texts(managed@).skip(0) =~= texts(managed@));
        assert(all =~= done + iface_rules_spec(o, family, texts(managed@).skip(0), tun@, table, pref as int));
    }
    while i < managed.len()
        invariant
            0 <= i <= managed@.len(),
            managed@.len() * 10 + 5030 <= u32::MAX,
            pref <= 5030 + 10 * i,
            tc@ == tun@,
            lo@ == "lo"@,
            all == iface_rules_spec(o, family, texts(managed@), tun@, table, PREF_HOTSPOT_BASE as int),
            all == done + iface_rules_spec(o, family, texts(managed@).skip(i as int), tun@, table, pref as int),
            rules_view(plan@) == p0 + done,
        decreases managed@.len() - i,
    {
        let ghost rest = texts(managed@).skip(i as int);
        proof {
            assert(rest[0] == managed@[i as int]@);
            assert(rest.drop_first() =~= texts(managed@).skip(i + 1));
        }
        let name = managed[i].as_str();
        let nc = crate::text::chars_of(name);
        let skip = crate::text::window_eq(&nc, 0, nc.len(), &tc) || crate::text::window_eq(&nc, 0, nc.len(), &lo);
        proof {
            assert(nc@.subrange(0, nc@.len() as int) =~= nc@);
        }
        if !skip {
            push_rule(plan, NetlinkRuleManager::add_iif_lookup(o, family, name, table, pref));
            proof {
                done = done.push(iif_lookup_spec(o, family, rest[0], table, pref));
                assert(all =~= done + iface_rules_spec(o, family, texts(managed@).skip(i + 1), tun@, table, pref + 10));
            }
            pref = pref + PREF_HOTSPOT_STEP;
        }
        i += 1;
    }
    proof {
        assert(texts(managed@).skip(i as int) =~= Seq::<Seq<char>>::empty());
        assert(all =~= done);
    }
}

fn push_range_rules(plan: &mut Vec<FibRuleMsg>, o: ByteOrder, family: u8, table: u32)
    requires
        family == AF_INET || family == AF_INET6,
    ensures
        rules_view(final(plan)@) == rules_view(old(plan)@) + range_rules_spec(
            o,
            family,
            if family == AF_INET { v4_ranges() } else { v6_ranges() },
            table,
        ),
{
    let ghost p0 = rules_view(plan@);
    if family == AF_INET {
        push_rule(plan, NetlinkRuleManager::add_from_lookup_v4(o, [10u8, 0u8, 0u8, 0u8], 8, table, 5030));
        push_rule(plan, NetlinkRuleManager::add_from_lookup_v4(o, [172u8, 16u8, 0u8, 0u8], 12, table, 5040));
        push_rule(plan, NetlinkRuleManager::add_from_lookup_v4(o, [192u8, 168u8, 0u8, 0u8], 16, table, 5050));
        proof {
            let r = range_rules_spec(o, family, v4_ranges(), table);
            assert(r.len() == 3);
            assert(r[0] == from_lookup_spec(o, family, seq![10u8, 0u8, 0u8, 0u8], 8, table, 5030));
            assert(r[1] == from_lookup_spec(o, family, seq![172u8, 16u8, 0u8, 0u8], 12, table, 5040));
            assert(r[2] == from_lookup_spec(o, family, seq![192u8, 168u8, 0u8, 0u8], 16, table, 5050));
            assert(rules_view(plan@) =~= p0 + r);
        }
    } else {
        push_rule(
            plan,
            NetlinkRuleManager::add_from_lookup_v6(o, [0xfeu8, 0x80u8, 0u8, 0u8, 0u8, 0u8, 0u8, 0u8, 0u8, 0u8, 0u8, 0u8, 0u8, 0u8, 0u8, 0u8], 10, table, 5030),
        );
        push_rule(
            plan,
            NetlinkRuleManager::add_from_lookup_v6(o, [0xfdu8, 0u8, 0u8, 0u8, 0u8, 0u8, 0u8, 0u8, 0u8, 0u8, 0u8, 0u8, 0u8, 0u8, 0u8, 0u8], 8, table, 5040),
        );
        proof {
            let r = range_rules_spec(o, family, v6_ranges(), table);
            assert(r.len() == 2);
            assert(r[0] == from_lookup_spec(o, family, seq![0xfeu8, 0x80u8, 0u8, 0u8, 0u8, 0u8, 0u8, 0u8, 0u8, 0u8, 0u8, 0u8, 0u8, 0u8, 0u8, 0u8], 10, table, 5030));
            assert(r[1] == from_lookup_spec(o, family, seq![0xfdu8, 0u8, 0u8, 0u8, 0u8, 0u8, 0u8, 0u8, 0u8, 0u8, 0u8, 0u8, 0u8, 0u8, 0u8, 0u8], 8, table, 5040));
            assert(rules_view(plan@) =~= p0 + r);
        }
    }
}

/// The kernel work of one family's install, in order: where `check_support`
/// is set, a check that the kernel takes FIB rule messages (the install
/// fails without it); then `flush`, each delete repeated while the kernel
/// accepts it (see `flush_repeats`); then `rules`, sent in order up to the
/// first one the kernel rejects (see `install_step`).
pub struct FamilyInstall {
    pub check_support: bool,
    pub flush: Vec<FibRuleMsg>,
    pub rules: Vec<FibRuleMsg>,
}

/// What follows the answer to a request of an install.
pub enum InstallStep {
    /// Send the request at this index.
    Send(usize),
    /// Every request was accepted: the install is done.
    Installed,
    /// The request was rejected: the install ends with its error.
    Stopped,
}

/// After the request at index `sent` of `total` got its answer (`accepted`):
/// a rejection ends the install; otherwise the next request follows, and
/// after the last one the install is done.
pub fn install_step(sent: usize, total: usize, accepted: bool) -> (r: InstallStep)
    requires
        sent < total,
    ensures
        !accepted ==> r is Stopped,
        accepted && sent + 1 < total ==> (r matches InstallStep::Send(n) && n == sent + 1),
        accepted && sent + 1 == total ==> r is Installed,
{
    if !accepted {
        InstallStep::Stopped
    } else if sent + 1 < total {
        InstallStep::Send(sent + 1)
    } else {
        InstallStep::Installed
    }
}

/// Whether a flush sends a delete once more, after `attempts` sends of it
/// whose last answer was `accepted`: while the kernel accepts it, up to
/// `FLUSH_DELETE_ATTEMPTS` sends.
pub fn flush_repeats(attempts: u32, accepted: bool) -> (r: bool)
    ensures
        r == (accepted && attempts < FLUSH_DELETE_ATTEMPTS),
{
    accepted && attempts < FLUSH_DELETE_ATTEMPTS
}

/// Builder of the gateway's FIB rule requests.
pub struct NetlinkRuleManager;

impl NetlinkRuleManager {
    pub fn new() -> (r: Self) {
        NetlinkRuleManager
    }

    fn family_rules(o: ByteOrder, family: u8, tun: &str, table: u32, mode: ProxyMode, managed_ifaces: &Vec<String>) -> (r: Vec<FibRuleMsg>)
        requires
            family == AF_INET || family == AF_INET6,
            managed_ifaces@.len() * 10 + 5030 <= u32::MAX,
        ensures
            rules_view(r@) == family_rules_spec(
                o,
                family,
                if family == AF_INET { v4_ranges() } else { v6_ranges() },
                tun@,
                table,
                mode,
                texts(managed_ifaces@),
            ),
    {
        let mut plan: Vec<FibRuleMsg> = Vec::new();
        proof {
            assert(rules_view(plan@) =~= Seq::<RuleView>::empty());
        }
        push_bypass_rules(&mut plan, o, family, tun);
        match mode {
            ProxyMode::Global => push_range_rules(&mut plan, o, family, table),
            _ => push_iface_rules(&mut plan, o, family, managed_ifaces, tun, table),
        }
        push_rule(&mut plan, NetlinkRuleManager::add_nop(o, family, PREF_ANCHOR_NOP));
        proof {
            assert(rules_view(plan@) =~= family_rules_spec(
                o,
                family,
                if family == AF_INET { v4_ranges() } else { v6_ranges() },
                tun@,
                table,
                mode,
                texts(managed_ifaces@),
            ));
        }
        plan
    }

    /// The IPv4 install: the daemon first checks that the kernel takes FIB
    /// rule messages, then flushes the IPv4 managed rules, then sends the
    /// rules in order.
    pub fn apply_ipv4_rules(&self, o: ByteOrder, tun: &str, table: u32, mode: ProxyMode, managed_ifaces: &Vec<String>) -> (r: FamilyInstall)
        requires
            managed_ifaces@.len() * 10 + 5030 <= u32::MAX,
        ensures
            r.check_support,
            rules_view(r.flush@) == flush_spec(o, true, false),
            rules_view(r.rules@) == family_rules_spec(o, AF_INET, v4_ranges(), tun@, table, mode, texts(managed_ifaces@)),
    {
        let flush = self.flush_managed_rules(o, true, false);
        let rules = Self::family_rules(o, AF_INET, tun, table, mode, managed_ifaces);
        FamilyInstall { check_support: true, flush, rules }
    }

    /// The IPv6 install: no support check; the IPv6 managed rules are
    /// flushed, then the rules are sent in order.
    pub fn apply_ipv6_rules(&self, o: ByteOrder, tun: &str, table: u32, mode: ProxyMode, managed_ifaces: &Vec<String>) -> (r: FamilyInstall)
        requires
            managed_ifaces@.len() * 10 + 5030 <= u32::MAX,
        ensures
            !r.check_support,
            rules_view(r.flush@) == flush_spec(o, false, true),
            rules_view(r.rules@) == family_rules_spec(o, AF_INET6, v6_ranges(), tun@, table, mode, texts(managed_ifaces@)),
    {
        let flush = self.flush_managed_rules(o, false, true);
        let rules = Self::family_rules(o, AF_INET6, tun, table, mode, managed_ifaces);
        FamilyInstall { check_support: false, flush, rules }
    }

    /// How many requests the install of a family sends (the length of
    /// `apply_ipv4_rules` or `apply_ipv6_rules` for the same arguments).
    pub fn install_len(family: u8, tun: &str, mode: ProxyMode, managed_ifaces: &Vec<String>) -> (r: usize)
        requires
            managed_ifaces@.len() + 5 <= usize::MAX,
        ensures
            r == install_len_spec(family, tun@, mode, texts(managed_ifaces@)),
    {
        match mode {
            ProxyMode::Global => {
                if family == AF_INET {
                    8
                } else {
                    7
                }
            },
            _ => {
                let ghost all = texts(managed_ifaces@);
                let tc = crate::text::chars_of(tun);
                let lo = crate::text::chars_of("lo");
                let mut n: usize = 0;
                let mut i: usize = 0;
                proof {
                    assert(all.skip(0) =~= all);
                    lemma_iface_rules_len(ByteOrder::Little, family, all, tun@, 0, 0);
                }
                while i < managed_ifaces.len()
                    invariant
                        0 <= i <= managed_ifaces@.len(),
                        managed_ifaces@.len() + 5 <= usize::MAX,
                        all == texts(managed_ifaces@),
                        tc@ == tun@,
                        lo@ == "lo"@,
                        n <= i,
                        n + own_rule_count(all.skip(i as int), tun@) == own_rule_count(all, tun@),
                    decreases managed_ifaces@.len() - i,
                {
                    let ghost rest = all.skip(i as int);
                    proof {
                        assert(rest[0] == managed_ifaces@[i as int]@);
                        assert(rest.drop_first() =~= all.skip(i + 1));
                    }
                    let name = managed_ifaces[i].as_str();
                    let nc = crate::text::chars_of(name);
                    let skip = crate::text::window_eq(&nc, 0, nc.len(), &tc) || crate::text::window_eq(&nc, 0, nc.len(), &lo);
                    proof {
                        assert(nc@.subrange(0, nc@.len() as int) =~= nc@);
                    }
                    if !skip {
                        n = n + 1;
                    }
                    i = i + 1;
                }
                proof {
                    assert(all.skip(i as int) =~= Seq::<Seq<char>>::empty());
                }
                5 + n
            },
        }
    }

    /// The managed priorities, fixed ones first, then the hotspot slots.
    pub fn managed_prefs() -> (r: Vec<u32>)
        ensures
            r@ == managed_prefs_spec(),
    {
        let mut r: Vec<u32> = vec![PREF_LO_BYPASS, PREF_VPN_RETURN, PREF_VPN_BYPASS, PREF_MAC_BYPASS, PREF_ANCHOR_NOP];
        let mut slots = hotspot_prefs();
        r.append(&mut slots);
        proof {
            assert(r@ =~= managed_prefs_spec());
        }
        r
    }

    /// The deletes that flush every managed rule of the chosen families.
    pub fn flush_managed_rules(&self, o: ByteOrder, v4: bool, v6: bool) -> (r: Vec<FibRuleMsg>)
        ensures
            rules_view(r@) == flush_spec(o, v4, v6),
    {
        let prefs = Self::managed_prefs();
        let mut plan: Vec<FibRuleMsg> = Vec::new();
        let ghost f = flush_step(o, v4, v6);
        let mut i: usize = 0;
        proof {
            assert(rules_view(plan@) =~= Seq::<RuleView>::empty());
            assert(prefs@.take(0) =~= Seq::<u32>::empty());
        }
        while i < prefs.len()
            invariant
                0 <= i <= prefs@.len(),
                prefs@ == managed_prefs_spec(),
                f == flush_step(o, v4, v6),
                rules_view(plan@) == prefs@.take(i as int).fold_left(Seq::<RuleView>::empty(), f),
            decreases prefs@.len() - i,
        {
            let ghost before = rules_view(plan@);
            let p = prefs[i];
            if v4 {
                push_rule(&mut plan, NetlinkRuleManager::del_by_pref(o, AF_INET, p));
            }
            if v6 {
                push_rule(&mut plan, NetlinkRuleManager::del_by_pref(o, AF_INET6, p));
            }
            proof {
                assert(prefs@.take(i + 1).drop_last() =~= prefs@.take(i as int));
                assert(rules_view(plan@) =~= f(before, p));
            }
            i += 1;
        }
        proof {
            assert(prefs@.take(prefs@.len() as int) =~= prefs@);
        }
        plan
    }
}

pub open spec fn zeros(n: int) -> Seq<u8> {
    Seq::new(n as nat, |i: int| 0u8)
}

/// `buf` with one attribute appended: length (truncated to 16 bits), type,
/// payload, then zero padding up to a multiple of four bytes of `buf`.
pub open spec fn push_rta_spec(o: ByteOrder, buf: Seq<u8>, atype: u16, data: Seq<u8>) -> Seq<u8> {
    let b = buf + u16_bytes(o, ((4 + data.len()) % 65536) as u16) + u16_bytes(o, atype) + data;
    b + zeros((4 - b.len() % 4) % 4)
}

/// Appends one attribute.
pub fn push_rta(buf: &mut Vec<u8>, o: ByteOrder, atype: u16, data: &Vec<u8>)
    ensures
        final(buf)@ == push_rta_spec(o, old(buf)@, atype, data@),
{
    let rta_len = ((data.len() % 65536 + 4) % 65536) as u16;
    proof {
        assert((data@.len() % 65536 + 4) % 65536 == (4 + data@.len()) % 65536) by (nonlinear_arith);
    }
    push_u16(buf, o, rta_len);
    push_u16(buf, o, atype);
    let ghost b0 = buf@;
    let mut i: usize = 0;
    while i < data.len()
        invariant
            0 <= i <= data@.len(),
            buf@ == b0 + data@.take(i as int),
        decreases data@.len() - i,
    {
        buf.push(data[i]);
        proof {
            assert(data@.take(i + 1) =~= data@.take(i as int).push(data@[i as int]));
            assert(buf@ =~= b0 + data@.take(i + 1));
        }
        i += 1;
    }
    proof {
        assert(data@.take(data@.len() as int) =~= data@);
    }
    let ghost b1 = buf@;
    let pad = (4 - buf.len() % 4) % 4;
    let mut k: usize = 0;
    while k < pad
        invariant
            0 <= k <= pad,
            pad == (4 - b1.len() % 4) % 4,
            buf@ == b1 + zeros(k as int),
        decreases pad - k,
    {
        buf.push(0);
        proof {
            assert(buf@ =~= b1 + zeros(k + 1));
        }
        k += 1;
    }
    proof {
        assert(buf@ =~= push_rta_spec(o, old(buf)@, atype, data@));
    }
}

/// The attributes appended in order.
pub open spec fn attrs_bytes(o: ByteOrder, buf: Seq<u8>, attrs: Seq<(u16, Seq<u8>)>) -> Seq<u8>
    decreases attrs.len(),
{
    if attrs.len() == 0 {
        buf
    } else {
        push_rta_spec(o, attrs_bytes(o, buf, attrs.drop_last()), attrs.last().0, attrs.last().1)
    }
}

proof fn lemma_attrs_bytes_len(o: ByteOrder, buf: Seq<u8>, attrs: Seq<(u16, Seq<u8>)>)
    ensures
        attrs_bytes(o, buf, attrs).len() >= buf.len(),
    decreases attrs.len(),
{
    if attrs.len() > 0 {
        lemma_attrs_bytes_len(o, buf, attrs.drop_last());
    }
}

/// The `fib_rule_hdr`: family, dst_len, src_len, tos 0, table, two reserved
/// bytes, action, then 32-bit flags 0.
pub open spec fn fib_hdr_bytes(o: ByteOrder, m: RuleView) -> Seq<u8> {
    seq![m.family, m.dst_len, m.src_len, 0u8, m.hdr_table, 0u8, 0u8, m.action] + u32_bytes(o, 0)
}

/// The complete netlink message of a rule request: `nlmsghdr` (total length
/// truncated to 32 bits, type, flags, sequence 1, port 0), the rule header
/// and the attributes.
pub open spec fn encode_rule_spec(o: ByteOrder, m: RuleView) -> Seq<u8> {
    let body = attrs_bytes(o, zeros(16) + fib_hdr_bytes(o, m), m.attrs);
    u32_bytes(o, (body.len() % 0x1_0000_0000) as u32) + u16_bytes(o, m.msg_type) + u16_bytes(o, m.flags)
        + u32_bytes(o, 1) + u32_bytes(o, 0) + body.subrange(16, body.len() as int)
}

/// Encodes a rule request for sending.
pub fn encode_rule(o: ByteOrder, m: &FibRuleMsg) -> (r: Vec<u8>)
    ensures
        r@ == encode_rule_spec(o, m.view()),
        r@.len() <= u32::MAX ==> u32_of(o, r@[0], r@[1], r@[2], r@[3]) == r@.len() && u16_of(o, r@[4], r@[5])
            == m.msg_type && u16_of(o, r@[6], r@[7]) == m.flags,
{
    proof {
        if encode_rule_spec(o, m.view()).len() <= u32::MAX {
            law_encoded_header(o, m.view());
        }
    }
    let mut buf: Vec<u8> = Vec::new();
    let mut z: usize = 0;
    while z < 16
        invariant
            0 <= z <= 16,
            buf@ == zeros(z as int),
        decreases 16 - z,
    {
        buf.push(0);
        proof {
            assert(buf@ =~= zeros(z + 1));
        }
        z += 1;
    }
    let ghost b16 = buf@;
    buf.push(m.family);
    buf.push(m.dst_len);
    buf.push(m.src_len);
    buf.push(0);
    buf.push(m.hdr_table);
    buf.push(0);
    buf.push(0);
    buf.push(m.action);
    push_u32(&mut buf, o, 0);
    proof {
        assert(buf@ =~= zeros(16) + fib_hdr_bytes(o, m.view()));
    }
    let ghost start = buf@;
    let mut i: usize = 0;
    while i < m.attrs.len()
        invariant
            0 <= i <= m.attrs@.len(),
            start == zeros(16) + fib_hdr_bytes(o, m.view()),
            buf@ == attrs_bytes(o, start, attrs_view(m.attrs@).take(i as int)),
        decreases m.attrs@.len() - i,
    {
        push_rta(&mut buf, o, m.attrs[i].atype, &m.attrs[i].data);
        proof {
            let t = attrs_view(m.attrs@).take(i + 1);
            assert(t.drop_last() =~= attrs_view(m.attrs@).take(i as int));
            assert(t.last() == (m.attrs@[i as int].atype, m.attrs@[i as int].data@));
        }
        i += 1;
    }
    proof {
        assert(attrs_view(m.attrs@).take(m.attrs@.len() as int) =~= m.view().attrs);
    }
    let ghost body = buf@;
    let total = ((buf.len() as u64) % 0x1_0000_0000) as u32;
    let mut out: Vec<u8> = Vec::new();
    push_u32(&mut out, o, total);
    push_u16(&mut out, o, m.msg_type);
    push_u16(&mut out, o, m.flags);
    push_u32(&mut out, o, 1);
    push_u32(&mut out, o, 0);
    let ghost head = out@;
    proof {
        lemma_attrs_bytes_len(o, start, m.view().attrs);
        assert(body.len() >= 16);
    }
    let mut j: usize = 16;
    while j < buf.len()
        invariant
            16 <= j <= buf@.len(),
            buf@ == body,
            out@ == head + body.subrange(16, j as int),
        decreases buf@.len() - j,
    {
        out.push(buf[j]);
        proof {
            assert(body.subrange(16, j + 1) =~= body.subrange(16, j as int).push(body[j as int]));
            assert(out@ =~= head + body.subrange(16, j + 1));
        }
        j += 1;
    }
    proof {
        assert(out@ =~= encode_rule_spec(o, m.view()));
    }
    out
}

/// What the kernel's acknowledgement says: shorter than a header is an I/O
/// error; a message other than NLMSG_ERROR is success; an error message
/// shorter than its code is an I/O error; code 0 is success, and otherwise
/// the negated code (wrapping) is the error number.
pub open spec fn parse_ack_spec(o: ByteOrder, reply: Seq<u8>) -> Result<(), i32> {
    if reply.len() < 16 {
        Err(EIO)
    } else if u16_of(o, reply[4], reply[5]) != NLMSG_ERROR {
        Ok(())
    } else if reply.len() < 20 {
        Err(EIO)
    } else {
        let err = u32_of(o, reply[16], reply[17], reply[18], reply[19]) as i32;
        if err == 0 {
            Ok(())
        } else {
            Err(if err == i32::MIN {
                err
            } else {
                (-err) as i32
            })
        }
    }
}

/// Reads the acknowledgement `reply` (the received bytes).
pub fn parse_ack(o: ByteOrder, reply: &Vec<u8>) -> (r: Result<(), i32>)
    ensures
        r == parse_ack_spec(o, reply@),
{
    if reply.len() < 16 {
        return Err(EIO);
    }
    let t = read_u16(o, reply[4], reply[5]);
    if t != NLMSG_ERROR {
        return Ok(());
    }
    if reply.len() < 20 {
        return Err(EIO);
    }
    let err = read_u32(o, reply[16], reply[17], reply[18], reply[19]) as i32;
    if err == 0 {
        Ok(())
    } else {
        Err(if err == i32::MIN {
            err
        } else {
            -err
        })
    }
}

/// The outcome of a request given its acknowledgement: an existing rule on
/// creation counts as success; every other error stays an error (a missing
/// rule on deletion is what ends a flush loop).
pub open spec fn ack_outcome_spec(msg_type: u16, ack: Result<(), i32>) -> Result<(), i32> {
    match ack {
        Ok(()) => Ok(()),
        Err(e) => if e == EEXIST && msg_type == RTM_NEWRULE {
            Ok(())
        } else {
            Err(e)
        },
    }
}

pub fn ack_outcome(msg_type: u16, ack: Result<(), i32>) -> (r: Result<(), i32>)
    ensures
        r == ack_outcome_spec(msg_type, ack),
{
    match ack {
        Ok(()) => Ok(()),
        Err(e) => if e == EEXIST && msg_type == RTM_NEWRULE {
            Ok(())
        } else {
            Err(e)
        },
    }
}

/// The private source ranges of a family.
pub open spec fn family_ranges(family: u8) -> Seq<(Seq<u8>, u8)> {
    if family == AF_INET {
        v4_ranges()
    } else {
        v6_ranges()
    }
}

/// `r` is a request at priority `p` (its first attribute).
pub open spec fn at_priority(o: ByteOrder, r: RuleView, p: u32) -> bool {
    r.attrs.len() > 0 && r.attrs[0] == (FRA_PRIORITY, u32_bytes(o, p))
}

/// The deletes `f` remove the rule `r`: they delete `r`'s priority in `r`'s family.
pub open spec fn deletes(o: ByteOrder, f: Seq<RuleView>, r: RuleView) -> bool {
    exists|p: u32| at_priority(o, r, p) && #[trigger] f.contains(del_by_pref_spec(o, r.family, p))
}

proof fn lemma_flush_has(o: ByteOrder, v4: bool, v6: bool, s: Seq<u32>, j: int)
    requires
        0 <= j < s.len(),
    ensures
        v4 ==> s.fold_left(Seq::<RuleView>::empty(), flush_step(o, v4, v6)).contains(del_by_pref_spec(o, AF_INET, s[j])),
        v6 ==> s.fold_left(Seq::<RuleView>::empty(), flush_step(o, v4, v6)).contains(del_by_pref_spec(o, AF_INET6, s[j])),
    decreases s.len(),
{
    let step = flush_step(o, v4, v6);
    let prev = s.drop_last().fold_left(Seq::<RuleView>::empty(), step);
    let all = s.fold_left(Seq::<RuleView>::empty(), step);
    let a4: Seq<RuleView> = if v4 { seq![del_by_pref_spec(o, AF_INET, s.last())] } else { seq![] };
    let a6: Seq<RuleView> = if v6 { seq![del_by_pref_spec(o, AF_INET6, s.last())] } else { seq![] };
    assert(all == prev + a4 + a6);
    if j == s.len() - 1 {
        if v4 {
            assert(all[prev.len() as int] == del_by_pref_spec(o, AF_INET, s[j]));
        }
        if v6 {
            assert(all[(prev.len() + a4.len()) as int] == del_by_pref_spec(o, AF_INET6, s[j]));
        }
    } else {
        lemma_flush_has(o, v4, v6, s.drop_last(), j);
        assert(s.drop_last()[j] == s[j]);
        if v4 {
            let k = choose|k: int| 0 <= k < prev.len() && prev[k] == del_by_pref_spec(o, AF_INET, s[j]);
            assert(all[k] == prev[k]);
        }
        if v6 {
            let k = choose|k: int| 0 <= k < prev.len() && prev[k] == del_by_pref_spec(o, AF_INET6, s[j]);
            assert(all[k] == prev[k]);
        }
    }
}

proof fn lemma_iface_rule_prefs(o: ByteOrder, family: u8, ifaces: Seq<Seq<char>>, tun: Seq<char>, table: u32, pref: int)
    ensures
        iface_rules_spec(o, family, ifaces, tun, table, pref).len() <= ifaces.len(),
        forall|i: int|
            0 <= i < iface_rules_spec(o, family, ifaces, tun, table, pref).len() ==> {
                let r = #[trigger] iface_rules_spec(o, family, ifaces, tun, table, pref)[i];
                at_priority(o, r, (pref + i * PREF_HOTSPOT_STEP) as u32) && r.family == family
            },
    decreases ifaces.len(),
{
    if ifaces.len() > 0 {
        if ifaces[0] == tun || ifaces[0] == "lo"@ {
            lemma_iface_rule_prefs(o, family, ifaces.drop_first(), tun, table, pref);
        } else {
            lemma_iface_rule_prefs(o, family, ifaces.drop_first(), tun, table, pref + PREF_HOTSPOT_STEP);
            let rest = iface_rules_spec(o, family, ifaces.drop_first(), tun, table, pref + PREF_HOTSPOT_STEP);
            let all = iface_rules_spec(o, family, ifaces, tun, table, pref);
            assert forall|i: int| 0 <= i < all.len() implies {
                let r = #[trigger] all[i];
                at_priority(o, r, (pref + i * PREF_HOTSPOT_STEP) as u32) && r.family == family
            } by {
                if i > 0 {
                    assert(all[i] == rest[i - 1]);
                    assert(pref + PREF_HOTSPOT_STEP + (i - 1) * PREF_HOTSPOT_STEP == pref + i * PREF_HOTSPOT_STEP);
                }
            }
        }
    }
}

proof fn lemma_managed_pref_deleted(o: ByteOrder, v4: bool, v6: bool, family: u8, r: RuleView, j: int)
    requires
        0 <= j < managed_prefs_spec().len(),
        at_priority(o, r, managed_prefs_spec()[j]),
        r.family == family,
        family == AF_INET ==> v4,
        family == AF_INET6 ==> v6,
        family == AF_INET || family == AF_INET6,
    ensures
        deletes(o, flush_spec(o, v4, v6), r),
{
    lemma_flush_has(o, v4, v6, managed_prefs_spec(), j);
}

/// Every request of an install sits at a managed priority that the flush
/// deletes in the request's family, both the cleanup flush of both families
/// and the flush of the family that each install starts with; so a cleanup
/// or a reinstall removes what an install added. This holds while at most
/// 32 interfaces other than the tunnel and loopback are managed (the
/// hotspot slots).
pub proof fn law_flush_covers_install(
    o: ByteOrder,
    family: u8,
    tun: Seq<char>,
    table: u32,
    mode: ProxyMode,
    managed: Seq<Seq<char>>,
    v4: bool,
    v6: bool,
)
    requires
        family == AF_INET || family == AF_INET6,
        family == AF_INET ==> v4,
        family == AF_INET6 ==> v6,
        own_rule_count(managed, tun) <= PREF_HOTSPOT_SLOTS,
    ensures
        forall|i: int|
            0 <= i < family_rules_spec(
                o,
                family,
                family_ranges(family),
                tun,
                table,
                mode,
                managed,
            ).len() ==> deletes(
                o,
                flush_spec(o, v4, v6),
                #[trigger] family_rules_spec(
                    o,
                    family,
                    family_ranges(family),
                    tun,
                    table,
                    mode,
                    managed,
                )[i],
            ),
{
    let ranges = family_ranges(family);
    let rules = family_rules_spec(o, family, ranges, tun, table, mode, managed);
    let mp = managed_prefs_spec();
    let bypass = bypass_rules_spec(o, family, tun);
    let mid = match mode {
        ProxyMode::Global => range_rules_spec(o, family, ranges, table),
        _ => iface_rules_spec(o, family, managed, tun, table, PREF_HOTSPOT_BASE as int),
    };
    lemma_iface_rule_prefs(o, family, managed, tun, table, PREF_HOTSPOT_BASE as int);
    lemma_iface_rules_len(o, family, managed, tun, table, PREF_HOTSPOT_BASE as int);
    assert(mp[0] == 5000 && mp[1] == 5010 && mp[2] == 5020 && mp[3] == 5028 && mp[4] == 6000);
    assert forall|i: int| 0 <= i < rules.len() implies deletes(o, flush_spec(o, v4, v6), #[trigger] rules[i]) by {
        if i < 4 {
            assert(rules[i] == bypass[i]);
            lemma_managed_pref_deleted(o, v4, v6, family, rules[i], i);
        } else if i < 4 + mid.len() {
            let k = i - 4;
            assert(rules[i] == mid[k]);
            assert(k < PREF_HOTSPOT_SLOTS);
            assert(mp[5 + k] == (PREF_HOTSPOT_BASE + k * PREF_HOTSPOT_STEP) as u32);
            lemma_managed_pref_deleted(o, v4, v6, family, rules[i], 5 + k);
        } else {
            assert(rules[i] == nop_spec(o, family, PREF_ANCHOR_NOP));
            lemma_managed_pref_deleted(o, v4, v6, family, rules[i], 4);
        }
    }
}

pub proof fn lemma_iface_rules_len(o: ByteOrder, family: u8, ifaces: Seq<Seq<char>>, tun: Seq<char>, table: u32, pref: int)
    ensures
        iface_rules_spec(o, family, ifaces, tun, table, pref).len() == own_rule_count(ifaces, tun),
        own_rule_count(ifaces, tun) <= ifaces.len(),
    decreases ifaces.len(),
{
    if ifaces.len() > 0 {
        lemma_iface_rules_len(o, family, ifaces.drop_first(), tun, table, pref);
        lemma_iface_rules_len(o, family, ifaces.drop_first(), tun, table, pref + PREF_HOTSPOT_STEP);
    }
}

/// An install of a family sends `install_len_spec` requests, whatever the
/// byte order and table.
pub proof fn lemma_install_len(o: ByteOrder, family: u8, tun: Seq<char>, table: u32, mode: ProxyMode, managed: Seq<Seq<char>>)
    ensures
        family_rules_spec(o, family, family_ranges(family), tun, table, mode, managed).len() == install_len_spec(
            family,
            tun,
            mode,
            managed,
        ),
        install_len_spec(family, tun, mode, managed) <= managed.len() + 8,
{
    lemma_iface_rules_len(o, family, managed, tun, table, PREF_HOTSPOT_BASE as int);
}

/// The header of an encoded request reads back as the request's length,
/// type and flags (the length field counts the whole message).
pub proof fn law_encoded_header(o: ByteOrder, m: RuleView)
    requires
        encode_rule_spec(o, m).len() <= u32::MAX,
    ensures
        encode_rule_spec(o, m).len() >= 28,
        u32_of(
            o,
            encode_rule_spec(o, m)[0],
            encode_rule_spec(o, m)[1],
            encode_rule_spec(o, m)[2],
            encode_rule_spec(o, m)[3],
        ) == encode_rule_spec(o, m).len(),
        u16_of(o, encode_rule_spec(o, m)[4], encode_rule_spec(o, m)[5]) == m.msg_type,
        u16_of(o, encode_rule_spec(o, m)[6], encode_rule_spec(o, m)[7]) == m.flags,
{
    let body = attrs_bytes(o, zeros(16) + fib_hdr_bytes(o, m), m.attrs);
    lemma_attrs_bytes_len(o, zeros(16) + fib_hdr_bytes(o, m), m.attrs);
    let e = encode_rule_spec(o, m);
    let n = (body.len() % 0x1_0000_0000) as u32;
    assert(e.len() == body.len());
    assert(n == body.len());
    lemma_u32_roundtrip(o, n);
    lemma_u16_roundtrip(o, m.msg_type);
    lemma_u16_roundtrip(o, m.flags);
    assert(e[0] == u32_bytes(o, n)[0] && e[1] == u32_bytes(o, n)[1] && e[2] == u32_bytes(o, n)[2] && e[3] == u32_bytes(o, n)[3]);
    assert(e[4] == u16_bytes(o, m.msg_type)[0] && e[5] == u16_bytes(o, m.msg_type)[1]);
    assert(e[6] == u16_bytes(o, m.flags)[0] && e[7] == u16_bytes(o, m.flags)[1]);
}

/// The number a four-byte attribute carries.
pub open spec fn attr_u32(o: ByteOrder, a: Seq<u8>) -> u32 {
    u32_of(o, a[0], a[1], a[2], a[3])
}

/// Every install has, at priority 5028, a goto to the anchor (6000) taken
/// by the packets that carry the bypass mark 0x80000001 set by the mangle
/// rules: the rule's mark reads 0x80000001, its mask 0xffffffff, and that
/// mark under the mask is the rule's mark.
pub proof fn law_mac_bypass_rule(
    o: ByteOrder,
    family: u8,
    tun: Seq<char>,
    table: u32,
    mode: ProxyMode,
    managed: Seq<Seq<char>>,
)
    requires
        family == AF_INET || family == AF_INET6,
    ensures
        ({
            let r = family_rules_spec(o, family, family_ranges(family), tun, table, mode, managed)[3];
            &&& r.family == family
            &&& r.msg_type == 32
            &&& r.action == 2
            &&& r.attrs.len() == 4
            &&& r.attrs[0].0 == 6 && r.attrs[0].1.len() == 4 && attr_u32(o, r.attrs[0].1) == 5028
            &&& r.attrs[1].0 == 10 && r.attrs[1].1.len() == 4 && attr_u32(o, r.attrs[1].1) == 0x8000_0001
            &&& r.attrs[2].0 == 16 && r.attrs[2].1.len() == 4 && attr_u32(o, r.attrs[2].1) == 0xffff_ffff
            &&& r.attrs[3].0 == 4 && r.attrs[3].1.len() == 4 && attr_u32(o, r.attrs[3].1) == 6000
            &&& (0x8000_0001u32 & attr_u32(o, r.attrs[2].1)) == attr_u32(o, r.attrs[1].1)
        }),
{
    let rules = family_rules_spec(o, family, family_ranges(family), tun, table, mode, managed);
    assert(rules[3] == bypass_rules_spec(o, family, tun)[3]);
    lemma_u32_roundtrip(o, PREF_MAC_BYPASS);
    lemma_u32_roundtrip(o, FWMARK_BYPASS);
    lemma_u32_roundtrip(o, FWMARK_MASK);
    lemma_u32_roundtrip(o, PREF_ANCHOR_NOP);
    assert((0x8000_0001u32 & 0xffff_ffffu32) == 0x8000_0001u32) by (bit_vector);
}

} // verus!
