//! Netfilter rules of the gateway, as plans of helper-binary invocations.
//!
//! The proxy owns three chains: `VSP_FWD` (filter FORWARD), `VSP_PRE`
//! (mangle PREROUTING) and `VSP_NAT` (nat PREROUTING). A plan lists the
//! invocations in the order they must run; the daemon runs them.
use vstd::prelude::*;
use crate::strset::{lemma_is_sorted_listing, lemma_sorted_listing_lists, sorted_listing, texts};
use crate::bytes::ByteOrder;
use crate::routing::{bypass_rules_spec, family_ranges, family_rules_spec, iface_rules_spec, nop_spec, RuleView, PREF_ANCHOR_NOP, PREF_HOTSPOT_BASE};
use crate::text::push_dec_u8;
use crate::text::dec_u8;
use crate::android::{AndroidEnv, vpn_dns_spec};
use crate::types::{DnsRedirectMode, GatewayConfig, ProxyMode};

verus! {

/// How an invocation is run.
#[derive(Clone, Copy, PartialEq, Eq, Debug, Structural)]
pub enum FwOp {
    /// Run once; the outcome does not matter.
    Run,
    /// Run again while it succeeds, at most `PIN_DELETE_ATTEMPTS` times
    /// (removes every stale copy of a jump).
    DeleteUntilFail,
}

/// How many times a `DeleteUntilFail` invocation is tried at most.
pub const PIN_DELETE_ATTEMPTS: u32 = 5;

/// Whether another delete attempt is due after `done` attempts, the last of
/// which succeeded or not.
pub fn keep_deleting(done: u32, last_succeeded: bool) -> (r: bool)
    ensures
        r == (last_succeeded && done < PIN_DELETE_ATTEMPTS),
{
    last_succeeded && done < PIN_DELETE_ATTEMPTS
}

/// One invocation of a netfilter helper binary.
pub struct FwCommand {
    pub op: FwOp,
    pub bin: String,
    pub args: Vec<String>,
}

/// An invocation, as text.
pub ghost struct CmdSpec {
    pub op: FwOp,
    pub bin: Seq<char>,
    pub args: Seq<Seq<char>>,
}

impl FwCommand {
    pub open spec fn spec(&self) -> CmdSpec {
        CmdSpec { op: self.op, bin: self.bin@, args: texts(self.args@) }
    }
}

/// A plan, as text.
pub open spec fn plan_spec(p: Seq<FwCommand>) -> Seq<CmdSpec> {
    p.map_values(|c: FwCommand| c.spec())
}

pub open spec fn run(bin: Seq<char>, args: Seq<Seq<char>>) -> CmdSpec {
    CmdSpec { op: FwOp::Run, bin, args }
}

/// The rules produced for each item of `items`, in order.
pub open spec fn each(items: Seq<Seq<char>>, f: spec_fn(Seq<char>) -> Seq<CmdSpec>) -> Seq<CmdSpec>
    decreases items.len(),
{
    if items.len() == 0 {
        seq![]
    } else {
        each(items.drop_last(), f) + f(items.last())
    }
}

pub proof fn lemma_each_step(items: Seq<Seq<char>>, i: int, f: spec_fn(Seq<char>) -> Seq<CmdSpec>)
    requires
        0 <= i < items.len(),
    ensures
        each(items.take(i + 1), f) == each(items.take(i), f) + f(items[i]),
{
    assert(items.take(i + 1).drop_last() =~= items.take(i));
}

pub proof fn lemma_each_empty(items: Seq<Seq<char>>, f: spec_fn(Seq<char>) -> Seq<CmdSpec>)
    ensures
        each(items.take(0), f) == Seq::<CmdSpec>::empty(),
{
    assert(items.take(0).len() == 0);
}

/// One rule per item: `pre`, the item, then `post`.
pub open spec fn around(bin: Seq<char>, pre: Seq<Seq<char>>, post: Seq<Seq<char>>) -> spec_fn(Seq<char>) -> Seq<CmdSpec> {
    |x: Seq<char>| seq![run(bin, pre + seq![x] + post)]
}

pub open spec fn opt_view(o: Option<String>) -> Option<Seq<char>> {
    match o {
        Some(s) => Some(s@),
        None => None,
    }
}

pub open spec fn w2() -> Seq<Seq<char>> {
    seq!["-w"@, "2"@]
}

pub open spec fn fwmark() -> Seq<char> {
    "0x80000001"@
}

pub open spec fn fwmark_mask() -> Seq<char> {
    "0x80000001/0xffffffff"@
}

pub open spec fn private_ranges_v4() -> Seq<Seq<char>> {
    seq!["10.0.0.0/8"@, "172.16.0.0/12"@, "192.168.0.0/16"@]
}

pub open spec fn private_ranges_v6() -> Seq<Seq<char>> {
    seq!["fe80::/10"@, "fd00::/8"@]
}

/// Remove every stale jump `root -> chain`, create `chain`, insert the jump first.
pub open spec fn pin_jump_spec(
    bin: Seq<char>,
    table_args: Seq<Seq<char>>,
    root: Seq<char>,
    chain: Seq<char>,
) -> Seq<CmdSpec> {
    seq![
        CmdSpec {
            op: FwOp::DeleteUntilFail,
            bin,
            args: table_args + w2() + seq!["-D"@, root, "-j"@, chain],
        },
        run(bin, table_args + w2() + seq!["-N"@, chain]),
        run(bin, table_args + w2() + seq!["-I"@, root, "-j"@, chain]),
    ]
}

pub open spec fn pin_family_spec(bin: Seq<char>) -> Seq<CmdSpec> {
    pin_jump_spec(bin, seq![], "FORWARD"@, "VSP_FWD"@) + pin_jump_spec(
        bin,
        seq!["-t"@, "mangle"@],
        "PREROUTING"@,
        "VSP_PRE"@,
    ) + pin_jump_spec(bin, seq!["-t"@, "nat"@], "PREROUTING"@, "VSP_NAT"@)
}

pub open spec fn teardown_family_spec(bin: Seq<char>) -> Seq<CmdSpec> {
    seq![
        run(bin, w2() + seq!["-D"@, "FORWARD"@, "-j"@, "VSP_FWD"@]),
        run(bin, w2() + seq!["-F"@, "VSP_FWD"@]),
        run(bin, w2() + seq!["-X"@, "VSP_FWD"@]),
        run(bin, w2() + seq!["-t"@, "mangle"@, "-D"@, "PREROUTING"@, "-j"@, "VSP_PRE"@]),
        run(bin, w2() + seq!["-t"@, "mangle"@, "-F"@, "VSP_PRE"@]),
        run(bin, w2() + seq!["-t"@, "mangle"@, "-X"@, "VSP_PRE"@]),
        run(bin, w2() + seq!["-t"@, "nat"@, "-D"@, "PREROUTING"@, "-j"@, "VSP_NAT"@]),
        run(bin, w2() + seq!["-t"@, "nat"@, "-F"@, "VSP_NAT"@]),
        run(bin, w2() + seq!["-t"@, "nat"@, "-X"@, "VSP_NAT"@]),
    ]
}

pub open spec fn flush_chain_spec(bin: Seq<char>, table_args: Seq<Seq<char>>, chain: Seq<char>) -> CmdSpec {
    run(bin, table_args + w2() + seq!["-F"@, chain])
}

pub open spec fn flush_proxy_chains_spec(bin: Seq<char>) -> Seq<CmdSpec> {
    seq![
        flush_chain_spec(bin, seq![], "VSP_FWD"@),
        flush_chain_spec(bin, seq!["-t"@, "mangle"@], "VSP_PRE"@),
        flush_chain_spec(bin, seq!["-t"@, "nat"@], "VSP_NAT"@),
    ]
}

/// Clamp MSS of client SYNs towards the tunnel, then accept tunnel replies.
/// The clamp does not end the chain, so it must come before any ACCEPT.
pub open spec fn tcpmss_and_reply_spec(bin: Seq<char>, tun: Seq<char>) -> Seq<CmdSpec> {
    seq![
        run(
            bin,
            w2() + seq![
                "-A"@,
                "VSP_FWD"@,
                "-o"@,
                tun,
                "-p"@,
                "tcp"@,
                "--tcp-flags"@,
                "SYN,RST"@,
                "SYN"@,
                "-j"@,
                "TCPMSS"@,
                "--clamp-mss-to-pmtu"@,
            ],
        ),
        run(bin, w2() + seq!["-A"@, "VSP_FWD"@, "-i"@, tun, "-j"@, "ACCEPT"@]),
    ]
}

pub open spec fn fwd_accept_range(bin: Seq<char>, tun: Seq<char>) -> spec_fn(Seq<char>) -> Seq<CmdSpec> {
    around(bin, w2() + seq!["-A"@, "VSP_FWD"@, "-s"@], seq!["-o"@, tun, "-j"@, "ACCEPT"@])
}

pub open spec fn fwd_accept_iface(bin: Seq<char>, tun: Seq<char>) -> spec_fn(Seq<char>) -> Seq<CmdSpec> {
    around(bin, w2() + seq!["-A"@, "VSP_FWD"@, "-i"@], seq!["-o"@, tun, "-j"@, "ACCEPT"@])
}

/// Forward client traffic to the tunnel: by source range in global mode,
/// by managed interface otherwise.
pub open spec fn fwd_accept_spec(
    bin: Seq<char>,
    mode: ProxyMode,
    managed: Seq<Seq<char>>,
    tun: Seq<char>,
    ranges: Seq<Seq<char>>,
) -> Seq<CmdSpec> {
    match mode {
        ProxyMode::Global => each(ranges, fwd_accept_range(bin, tun)),
        _ => each(managed, fwd_accept_iface(bin, tun)),
    }
}

pub open spec fn allow_return(bin: Seq<char>, iface: Seq<char>) -> spec_fn(Seq<char>) -> Seq<CmdSpec> {
    around(
        bin,
        w2() + seq!["-t"@, "mangle"@, "-A"@, "VSP_PRE"@, "-i"@, iface, "-m"@, "mac"@, "--mac-source"@],
        seq!["-j"@, "RETURN"@],
    )
}

pub open spec fn iface_mark(bin: Seq<char>, iface: Seq<char>) -> CmdSpec {
    run(
        bin,
        w2() + seq![
            "-t"@,
            "mangle"@,
            "-A"@,
            "VSP_PRE"@,
            "-i"@,
            iface,
            "-j"@,
            "MARK"@,
            "--set-mark"@,
            fwmark(),
        ],
    )
}

pub open spec fn allow_iface(bin: Seq<char>, macs: Seq<Seq<char>>) -> spec_fn(Seq<char>) -> Seq<CmdSpec> {
    |iface: Seq<char>| each(macs, allow_return(bin, iface)) + seq![iface_mark(bin, iface)]
}

/// Allowlist: listed MACs leave the mangle chain unmarked; everything else
/// on the interface gets the bypass mark.
pub open spec fn mangle_allow_spec(bin: Seq<char>, macs: Seq<Seq<char>>, managed: Seq<Seq<char>>) -> Seq<CmdSpec> {
    each(managed, allow_iface(bin, macs))
}

pub open spec fn block_mark(bin: Seq<char>, iface: Seq<char>) -> spec_fn(Seq<char>) -> Seq<CmdSpec> {
    around(
        bin,
        w2() + seq!["-t"@, "mangle"@, "-A"@, "VSP_PRE"@, "-i"@, iface, "-m"@, "mac"@, "--mac-source"@],
        seq!["-j"@, "MARK"@, "--set-mark"@, fwmark()],
    )
}

pub open spec fn block_iface(bin: Seq<char>, macs: Seq<Seq<char>>) -> spec_fn(Seq<char>) -> Seq<CmdSpec> {
    |iface: Seq<char>| each(macs, block_mark(bin, iface))
}

/// Blocklist: only the listed MACs get the bypass mark.
pub open spec fn mangle_block_spec(bin: Seq<char>, macs: Seq<Seq<char>>, managed: Seq<Seq<char>>) -> Seq<CmdSpec> {
    each(managed, block_iface(bin, macs))
}

/// The mangle rules of the configured mode.
pub open spec fn mangle_spec(bin: Seq<char>, config: GatewayConfig, managed: Seq<Seq<char>>) -> Seq<CmdSpec> {
    match config.proxy_mode {
        ProxyMode::MacAllowlist => mangle_allow_spec(bin, config.mac_allow_list.elems(), managed),
        ProxyMode::MacBlocklist => mangle_block_spec(bin, config.mac_block_list.elems(), managed),
        ProxyMode::Global => seq![],
    }
}

/// Dotted-quad text of an IPv4 address.
pub open spec fn dotted_quad(o: [u8; 4]) -> Seq<char> {
    dec_u8(o@[0]) + "."@ + dec_u8(o@[1]) + "."@ + dec_u8(o@[2]) + "."@ + dec_u8(o@[3])
}

/// The IPv4 resolver that client DNS is redirected to, if any.
pub open spec fn resolve_dns_v4_spec(config: GatewayConfig) -> Option<Seq<char>> {
    match config.dns_redirect {
        DnsRedirectMode::Off => None,
        DnsRedirectMode::Custom => match config.custom_dns_v4 {
            Some(o) => Some(dotted_quad(o)),
            None => Some("8.8.8.8"@),
        },
        DnsRedirectMode::Auto => vpn_dns_spec(false),
    }
}

pub open spec fn dnat_range(bin: Seq<char>, tun: Seq<char>, target: Seq<char>) -> spec_fn(Seq<char>) -> Seq<CmdSpec> {
    around(
        bin,
        w2() + seq![
            "-t"@,
            "nat"@,
            "-A"@,
            "VSP_NAT"@,
            "!"@,
            "-i"@,
            tun,
            "-m"@,
            "mark"@,
            "!"@,
            "--mark"@,
            fwmark_mask(),
            "-s"@,
        ],
        seq!["-p"@, "udp"@, "--dport"@, "53"@, "-j"@, "DNAT"@, "--to"@, target],
    )
}

pub open spec fn dnat_iface(bin: Seq<char>, target: Seq<char>) -> spec_fn(Seq<char>) -> Seq<CmdSpec> {
    around(
        bin,
        w2() + seq!["-t"@, "nat"@, "-A"@, "VSP_NAT"@, "-i"@],
        seq![
            "-m"@,
            "mark"@,
            "!"@,
            "--mark"@,
            fwmark_mask(),
            "-p"@,
            "udp"@,
            "--dport"@,
            "53"@,
            "-j"@,
            "DNAT"@,
            "--to"@,
            target,
        ],
    )
}

/// Unmarked client DNS (UDP 53) is sent to the resolver.
pub open spec fn dns_nat_spec(
    bin: Seq<char>,
    config: GatewayConfig,
    managed: Seq<Seq<char>>,
    tun: Seq<char>,
) -> Seq<CmdSpec> {
    match resolve_dns_v4_spec(config) {
        None => seq![],
        Some(dns) => {
            let target = dns + ":53"@;
            match config.proxy_mode {
                ProxyMode::Global => each(private_ranges_v4(), dnat_range(bin, tun, target)),
                _ => each(managed, dnat_iface(bin, target)),
            }
        },
    }
}

pub open spec fn reject_range(bin: Seq<char>) -> spec_fn(Seq<char>) -> Seq<CmdSpec> {
    around(
        bin,
        w2() + seq!["-A"@, "VSP_FWD"@, "-s"@],
        seq!["-j"@, "REJECT"@, "--reject-with"@, "icmp6-addr-unreachable"@],
    )
}

pub open spec fn reject_iface(bin: Seq<char>) -> spec_fn(Seq<char>) -> Seq<CmdSpec> {
    around(
        bin,
        w2() + seq!["-A"@, "VSP_FWD"@, "-i"@],
        seq!["-j"@, "REJECT"@, "--reject-with"@, "icmp6-addr-unreachable"@],
    )
}

/// Kernel support for the legacy netfilter tables, as probed on the host.
pub struct NetfilterProbe {
    /// `/proc/net/ip_tables_names` exists.
    pub proc_v4: bool,
    /// `/proc/net/ip6_tables_names` exists.
    pub proc_v6: bool,
    /// The `IPT_SO_GET_INFO` sockopt answered for IPv4.
    pub sockopt_v4: bool,
    /// The `IP6T_SO_GET_INFO` sockopt answered for IPv6.
    pub sockopt_v6: bool,
}

/// Where the helper binaries are and whether the kernel has the tables.
pub struct FirewallManager {
    pub kernel_iptables: bool,
    pub kernel_ip6tables: bool,
    pub ipt_bin: Option<String>,
    pub ip6t_bin: Option<String>,
}

/// Module-bundled helper directories first, then absolute system paths.
pub open spec fn helper_dirs() -> Seq<Seq<char>> {
    seq![
        "/data/adb/modules/vpn_share_proxy/bin"@,
        "/data/adb/modules/vpngw/bin"@,
        "/data/adb/modules/vpn_gateway/bin"@,
        "/system/bin"@,
        "/system/xbin"@,
        "/vendor/bin"@,
    ]
}

pub open spec fn helper_candidates_spec(name: Seq<char>) -> Seq<Seq<char>> {
    helper_dirs().map_values(|d: Seq<char>| d + "/"@ + name)
}

/// Helpers are looked up by absolute path only, never through `PATH`.
proof fn lemma_helper_dirs_absolute(name: Seq<char>)
    ensures
        helper_candidates_spec(name).len() == 6,
        forall|i: int|
            0 <= i < 6 ==> (#[trigger] helper_candidates_spec(name)[i]).len() > 0 && helper_candidates_spec(name)[i][0]
                == '/',
{
    reveal_strlit("/data/adb/modules/vpn_share_proxy/bin");
    reveal_strlit("/data/adb/modules/vpngw/bin");
    reveal_strlit("/data/adb/modules/vpn_gateway/bin");
    reveal_strlit("/system/bin");
    reveal_strlit("/system/xbin");
    reveal_strlit("/vendor/bin");
    assert forall|i: int| 0 <= i < 6 implies (#[trigger] helper_candidates_spec(name)[i]).len() > 0
        && helper_candidates_spec(name)[i][0] == '/' by {
        let d = helper_dirs()[i];
        assert(helper_candidates_spec(name)[i] == d + "/"@ + name);
        assert(d.len() > 0 && d[0] == '/');
        assert((d + "/"@ + name)[0] == d[0]);
    }
}

/// The first candidate that is present, if any.
pub open spec fn first_present(cands: Seq<Seq<char>>, present: Seq<bool>) -> Option<Seq<char>>
    decreases cands.len(),
{
    if cands.len() == 0 || present.len() == 0 {
        None
    } else if present[0] {
        Some(cands[0])
    } else {
        first_present(cands.drop_first(), present.drop_first())
    }
}

fn lit(s: &str) -> (r: String)
    ensures
        r@ == s@,
{
    String::from_str(s)
}

/// Appends a command.
fn emit(plan: &mut Vec<FwCommand>, op: FwOp, bin: &String, args: Vec<String>)
    ensures
        plan_spec(final(plan)@) == plan_spec(old(plan)@).push(CmdSpec { op, bin: bin@, args: texts(args@) }),
{
    let c = FwCommand { op, bin: bin.clone(), args };
    plan.push(c);
    proof {
        assert(plan_spec(plan@) =~= plan_spec(old(plan)@).push(c.spec()));
    }
}

/// `prefix` followed by `rest`.
fn join_args(prefix: &Vec<String>, rest: Vec<String>) -> (r: Vec<String>)
    ensures
        texts(r@) == texts(prefix@) + texts(rest@),
{
    let mut r: Vec<String> = Vec::new();
    let mut i: usize = 0;
    while i < prefix.len()
        invariant
            0 <= i <= prefix@.len(),
            texts(r@) == texts(prefix@.take(i as int)),
        decreases prefix@.len() - i,
    {
        let ghost r0 = r@;
        r.push(prefix[i].clone());
        proof {
            assert(texts(r@) =~= texts(r0).push(prefix@[i as int]@));
            assert(texts(prefix@.take(i + 1)) =~= texts(prefix@.take(i as int)).push(prefix@[i as int]@));
            assert(texts(r@) =~= texts(prefix@.take(i + 1)));
        }
        i += 1;
    }
    let mut j: usize = 0;
    while j < rest.len()
        invariant
            0 <= j <= rest@.len(),
            prefix@.take(prefix@.len() as int) == prefix@,
            texts(r@) == texts(prefix@) + texts(rest@.take(j as int)),
        decreases rest@.len() - j,
    {
        let ghost r0 = r@;
        r.push(rest[j].clone());
        proof {
            assert(texts(r@) =~= texts(r0).push(rest@[j as int]@));
            assert(texts(rest@.take(j + 1)) =~= texts(rest@.take(j as int)).push(rest@[j as int]@));
            assert(texts(r@) =~= texts(prefix@) + texts(rest@.take(j + 1)));
        }
        j += 1;
    }
    proof {
        assert(prefix@.take(prefix@.len() as int) =~= prefix@);
        assert(rest@.take(rest@.len() as int) =~= rest@);
    }
    r
}

fn table_none() -> (r: Vec<String>)
    ensures
        texts(r@) == Seq::<Seq<char>>::empty(),
{
    let r: Vec<String> = Vec::new();
    proof {
        assert(texts(r@) =~= Seq::<Seq<char>>::empty());
    }
    r
}

fn table_named(name: &str) -> (r: Vec<String>)
    ensures
        texts(r@) == seq!["-t"@, name@],
{
    let r = vec![lit("-t"), lit(name)];
    proof {
        assert(texts(r@) =~= seq!["-t"@, name@]);
    }
    r
}

/// Appends the pinning of `root -> chain` in the table `table_args`.
pub fn pin_jump(plan: &mut Vec<FwCommand>, bin: &String, table_args: &Vec<String>, root: &str, chain: &str)
    ensures
        plan_spec(final(plan)@) == plan_spec(old(plan)@) + pin_jump_spec(bin@, texts(table_args@), root@, chain@),
{
    let d = vec![lit("-w"), lit("2"), lit("-D"), lit(root), lit("-j"), lit(chain)];
    proof {
        assert(texts(d@) =~= w2() + seq!["-D"@, root@, "-j"@, chain@]);
    }
    let del = join_args(table_args, d);
    emit(plan, FwOp::DeleteUntilFail, bin, del);
    let c = vec![lit("-w"), lit("2"), lit("-N"), lit(chain)];
    proof {
        assert(texts(c@) =~= w2() + seq!["-N"@, chain@]);
    }
    let create = join_args(table_args, c);
    emit(plan, FwOp::Run, bin, create);
    let n = vec![lit("-w"), lit("2"), lit("-I"), lit(root), lit("-j"), lit(chain)];
    proof {
        assert(texts(n@) =~= w2() + seq!["-I"@, root@, "-j"@, chain@]);
    }
    let insert = join_args(table_args, n);
    emit(plan, FwOp::Run, bin, insert);
    proof {
        let t = texts(table_args@);
        assert(t + w2() + seq!["-D"@, root@, "-j"@, chain@] =~= t + (w2() + seq!["-D"@, root@, "-j"@, chain@]));
        assert(t + w2() + seq!["-N"@, chain@] =~= t + (w2() + seq!["-N"@, chain@]));
        assert(t + w2() + seq!["-I"@, root@, "-j"@, chain@] =~= t + (w2() + seq!["-I"@, root@, "-j"@, chain@]));
        assert(plan_spec(plan@) =~= plan_spec(old(plan)@) + pin_jump_spec(bin@, t, root@, chain@));
    }
}

/// Appends the flush of one chain.
pub fn flush_chain(plan: &mut Vec<FwCommand>, bin: &String, table_args: &Vec<String>, chain: &str)
    ensures
        plan_spec(final(plan)@) == plan_spec(old(plan)@).push(flush_chain_spec(bin@, texts(table_args@), chain@)),
{
    let f = vec![lit("-w"), lit("2"), lit("-F"), lit(chain)];
    proof {
        assert(texts(f@) =~= w2() + seq!["-F"@, chain@]);
    }
    let args = join_args(table_args, f);
    emit(plan, FwOp::Run, bin, args);
    proof {
        let t = texts(table_args@);
        assert(t + w2() + seq!["-F"@, chain@] =~= t + (w2() + seq!["-F"@, chain@]));
    }
}

/// Appends the pinning of the three proxy chains into their hooks.
pub fn pin_family(plan: &mut Vec<FwCommand>, bin: &String)
    ensures
        plan_spec(final(plan)@) == plan_spec(old(plan)@) + pin_family_spec(bin@),
{
    let ghost p0 = plan_spec(plan@);
    pin_jump(plan, bin, &table_none(), "FORWARD", "VSP_FWD");
    pin_jump(plan, bin, &table_named("mangle"), "PREROUTING", "VSP_PRE");
    pin_jump(plan, bin, &table_named("nat"), "PREROUTING", "VSP_NAT");
    proof {
        assert(plan_spec(plan@) =~= p0 + pin_family_spec(bin@));
    }
}

/// Appends the removal of the proxy chains and their jumps.
pub fn teardown_family(plan: &mut Vec<FwCommand>, bin: &String)
    ensures
        plan_spec(final(plan)@) == plan_spec(old(plan)@) + teardown_family_spec(bin@),
{
    let ghost p0 = plan_spec(plan@);
    let a = vec![lit("-w"), lit("2"), lit("-D"), lit("FORWARD"), lit("-j"), lit("VSP_FWD")];
    proof {
        assert(texts(a@) =~= w2() + seq!["-D"@, "FORWARD"@, "-j"@, "VSP_FWD"@]);
    }
    emit(plan, FwOp::Run, bin, a);
    let a = vec![lit("-w"), lit("2"), lit("-F"), lit("VSP_FWD")];
    proof {
        assert(texts(a@) =~= w2() + seq!["-F"@, "VSP_FWD"@]);
    }
    emit(plan, FwOp::Run, bin, a);
    let a = vec![lit("-w"), lit("2"), lit("-X"), lit("VSP_FWD")];
    proof {
        assert(texts(a@) =~= w2() + seq!["-X"@, "VSP_FWD"@]);
    }
    emit(plan, FwOp::Run, bin, a);
    let a = vec![lit("-w"), lit("2"), lit("-t"), lit("mangle"), lit("-D"), lit("PREROUTING"), lit("-j"), lit("VSP_PRE")];
    proof {
        assert(texts(a@) =~= w2() + seq!["-t"@, "mangle"@, "-D"@, "PREROUTING"@, "-j"@, "VSP_PRE"@]);
    }
    emit(plan, FwOp::Run, bin, a);
    let a = vec![lit("-w"), lit("2"), lit("-t"), lit("mangle"), lit("-F"), lit("VSP_PRE")];
    proof {
        assert(texts(a@) =~= w2() + seq!["-t"@, "mangle"@, "-F"@, "VSP_PRE"@]);
    }
    emit(plan, FwOp::Run, bin, a);
    let a = vec![lit("-w"), lit("2"), lit("-t"), lit("mangle"), lit("-X"), lit("VSP_PRE")];
    proof {
        assert(texts(a@) =~= w2() + seq!["-t"@, "mangle"@, "-X"@, "VSP_PRE"@]);
    }
    emit(plan, FwOp::Run, bin, a);
    let a = vec![lit("-w"), lit("2"), lit("-t"), lit("nat"), lit("-D"), lit("PREROUTING"), lit("-j"), lit("VSP_NAT")];
    proof {
        assert(texts(a@) =~= w2() + seq!["-t"@, "nat"@, "-D"@, "PREROUTING"@, "-j"@, "VSP_NAT"@]);
    }
    emit(plan, FwOp::Run, bin, a);
    let a = vec![lit("-w"), lit("2"), lit("-t"), lit("nat"), lit("-F"), lit("VSP_NAT")];
    proof {
        assert(texts(a@) =~= w2() + seq!["-t"@, "nat"@, "-F"@, "VSP_NAT"@]);
    }
    emit(plan, FwOp::Run, bin, a);
    let a = vec![lit("-w"), lit("2"), lit("-t"), lit("nat"), lit("-X"), lit("VSP_NAT")];
    proof {
        assert(texts(a@) =~= w2() + seq!["-t"@, "nat"@, "-X"@, "VSP_NAT"@]);
    }
    emit(plan, FwOp::Run, bin, a);
    proof {
        assert(plan_spec(plan@) =~= p0 + teardown_family_spec(bin@));
    }
}

/// Appends the flush of the three proxy chains.
pub fn flush_proxy_chains(plan: &mut Vec<FwCommand>, bin: &String)
    ensures
        plan_spec(final(plan)@) == plan_spec(old(plan)@) + flush_proxy_chains_spec(bin@),
{
    let ghost p0 = plan_spec(plan@);
    flush_chain(plan, bin, &table_none(), "VSP_FWD");
    flush_chain(plan, bin, &table_named("mangle"), "VSP_PRE");
    flush_chain(plan, bin, &table_named("nat"), "VSP_NAT");
    proof {
        assert(plan_spec(plan@) =~= p0 + flush_proxy_chains_spec(bin@));
    }
}

/// Appends the MSS clamp and the tunnel-reply accept (the clamp first).
pub fn apply_tcpmss_and_reply(plan: &mut Vec<FwCommand>, bin: &String, tun: &String)
    ensures
        plan_spec(final(plan)@) == plan_spec(old(plan)@) + tcpmss_and_reply_spec(bin@, tun@),
{
    let ghost p0 = plan_spec(plan@);
    let a = vec![lit("-w"), lit("2"), lit("-A"), lit("VSP_FWD"), lit("-o"), tun.clone(), lit("-p"), lit("tcp"), lit("--tcp-flags"), lit("SYN,RST"), lit("SYN"), lit("-j"), lit("TCPMSS"), lit("--clamp-mss-to-pmtu")];
    proof {
        assert(texts(a@) =~= w2() + seq!["-A"@, "VSP_FWD"@, "-o"@, tun@, "-p"@, "tcp"@, "--tcp-flags"@, "SYN,RST"@, "SYN"@, "-j"@, "TCPMSS"@, "--clamp-mss-to-pmtu"@]);
    }
    emit(plan, FwOp::Run, bin, a);
    let a = vec![lit("-w"), lit("2"), lit("-A"), lit("VSP_FWD"), lit("-i"), tun.clone(), lit("-j"), lit("ACCEPT")];
    proof {
        assert(texts(a@) =~= w2() + seq!["-A"@, "VSP_FWD"@, "-i"@, tun@, "-j"@, "ACCEPT"@]);
    }
    emit(plan, FwOp::Run, bin, a);
    proof {
        assert(plan_spec(plan@) =~= p0 + tcpmss_and_reply_spec(bin@, tun@));
    }
}

fn ranges_v4() -> (r: Vec<String>)
    ensures
        texts(r@) == private_ranges_v4(),
{
    let r = vec![lit("10.0.0.0/8"), lit("172.16.0.0/12"), lit("192.168.0.0/16")];
    proof {
        assert(texts(r@) =~= private_ranges_v4());
    }
    r
}

fn ranges_v6() -> (r: Vec<String>)
    ensures
        texts(r@) == private_ranges_v6(),
{
    let r = vec![lit("fe80::/10"), lit("fd00::/8")];
    proof {
        assert(texts(r@) =~= private_ranges_v6());
    }
    r
}

/// Appends, for each item, the rule `pre`, item, `post`.
fn emit_around_each(plan: &mut Vec<FwCommand>, bin: &String, items: &Vec<String>, pre: &Vec<String>, post: &Vec<String>)
    ensures
        plan_spec(final(plan)@) == plan_spec(old(plan)@) + each(
            texts(items@),
            around(bin@, texts(pre@), texts(post@)),
        ),
{
    let ghost p0 = plan_spec(plan@);
    let ghost f = around(bin@, texts(pre@), texts(post@));
    proof {
        lemma_each_empty(texts(items@), f);
        assert(p0 =~= p0 + each(texts(items@).take(0), f));
    }
    let mut i: usize = 0;
    while i < items.len()
        invariant
            0 <= i <= items@.len(),
            f == around(bin@, texts(pre@), texts(post@)),
            plan_spec(plan@) == p0 + each(texts(items@).take(i as int), f),
        decreases items@.len() - i,
    {
        let mid = vec![items[i].clone()];
        let a = join_args(&join_args(pre, mid), post.clone());
        proof {
            assert(texts(mid@) =~= seq![items@[i as int]@]);
        }
        let ghost before = plan_spec(plan@);
        emit(plan, FwOp::Run, bin, a);
        proof {
            lemma_each_step(texts(items@), i as int, f);
            assert(f(texts(items@)[i as int]) =~= seq![plan_spec(plan@).last()]);
            assert(plan_spec(plan@) =~= p0 + each(texts(items@).take(i + 1), f));
        }
        i += 1;
    }
    proof {
        assert(texts(items@).take(items@.len() as int) =~= texts(items@));
    }
}

/// Appends the forward accepts of client traffic to the tunnel.
pub fn apply_fwd_accept(
    plan: &mut Vec<FwCommand>,
    bin: &String,
    config: &GatewayConfig,
    tun: &String,
    private_ranges: &Vec<String>,
)
    ensures
        plan_spec(final(plan)@) == plan_spec(old(plan)@) + fwd_accept_spec(
            bin@,
            config.proxy_mode,
            sorted_listing(config.managed_ifaces@),
            tun@,
            texts(private_ranges@),
        ),
{
    let managed = config.managed_ifaces_sorted();
    let post = vec![lit("-o"), tun.clone(), lit("-j"), lit("ACCEPT")];
    proof {
        assert(texts(post@) =~= seq!["-o"@, tun@, "-j"@, "ACCEPT"@]);
    }
    match config.proxy_mode {
        ProxyMode::Global => {
            let pre = vec![lit("-w"), lit("2"), lit("-A"), lit("VSP_FWD"), lit("-s")];
            proof {
                assert(texts(pre@) =~= w2() + seq!["-A"@, "VSP_FWD"@, "-s"@]);
            }
            emit_around_each(plan, bin, private_ranges, &pre, &post);
        },
        _ => {
            let pre = vec![lit("-w"), lit("2"), lit("-A"), lit("VSP_FWD"), lit("-i")];
            proof {
                assert(texts(pre@) =~= w2() + seq!["-A"@, "VSP_FWD"@, "-i"@]);
            }
            emit_around_each(plan, bin, &managed, &pre, &post);
        },
    }
}

/// Appends the allowlist mangle rules for each managed interface.
pub fn apply_mangle_allow(plan: &mut Vec<FwCommand>, bin: &String, config: &GatewayConfig, managed: &Vec<String>)
    ensures
        plan_spec(final(plan)@) == plan_spec(old(plan)@) + mangle_allow_spec(
            bin@,
            config.mac_allow_list.elems(),
            texts(managed@),
        ),
{
    let macs = config.mac_allow_list.to_vec();
    let ghost p0 = plan_spec(plan@);
    let ghost f = allow_iface(bin@, config.mac_allow_list.elems());
    proof {
        lemma_each_empty(texts(managed@), f);
        assert(p0 =~= p0 + each(texts(managed@).take(0), f));
    }
    let mut i: usize = 0;
    while i < managed.len()
        invariant
            0 <= i <= managed@.len(),
            texts(macs@) == config.mac_allow_list.elems(),
            f == allow_iface(bin@, config.mac_allow_list.elems()),
            plan_spec(plan@) == p0 + each(texts(managed@).take(i as int), f),
        decreases managed@.len() - i,
    {
        let iface = &managed[i];
        let ghost p1 = plan_spec(plan@);
        let pre = vec![
            lit("-w"),
            lit("2"),
            lit("-t"),
            lit("mangle"),
            lit("-A"),
            lit("VSP_PRE"),
            lit("-i"),
            iface.clone(),
            lit("-m"),
            lit("mac"),
            lit("--mac-source"),
        ];
        let post = vec![lit("-j"), lit("RETURN")];
        proof {
            assert(texts(pre@) =~= w2() + seq!["-t"@, "mangle"@, "-A"@, "VSP_PRE"@, "-i"@, iface@, "-m"@, "mac"@, "--mac-source"@]);
            assert(texts(post@) =~= seq!["-j"@, "RETURN"@]);
        }
        emit_around_each(plan, bin, &macs, &pre, &post);
        let a = vec![
            lit("-w"),
            lit("2"),
            lit("-t"),
            lit("mangle"),
            lit("-A"),
            lit("VSP_PRE"),
            lit("-i"),
            iface.clone(),
            lit("-j"),
            lit("MARK"),
            lit("--set-mark"),
            lit("0x80000001"),
        ];
        proof {
            assert(texts(a@) =~= w2() + seq!["-t"@, "mangle"@, "-A"@, "VSP_PRE"@, "-i"@, iface@, "-j"@, "MARK"@, "--set-mark"@, fwmark()]);
        }
        emit(plan, FwOp::Run, bin, a);
        proof {
            lemma_each_step(texts(managed@), i as int, f);
            assert(texts(managed@)[i as int] == iface@);
            assert(plan_spec(plan@) =~= p0 + each(texts(managed@).take(i + 1), f));
        }
        i += 1;
    }
    proof {
        assert(texts(managed@).take(managed@.len() as int) =~= texts(managed@));
    }
}

/// Appends the blocklist mangle rules for each managed interface.
pub fn apply_mangle_block(plan: &mut Vec<FwCommand>, bin: &String, config: &GatewayConfig, managed: &Vec<String>)
    ensures
        plan_spec(final(plan)@) == plan_spec(old(plan)@) + mangle_block_spec(
            bin@,
            config.mac_block_list.elems(),
            texts(managed@),
        ),
{
    let macs = config.mac_block_list.to_vec();
    let ghost p0 = plan_spec(plan@);
    let ghost f = block_iface(bin@, config.mac_block_list.elems());
    proof {
        lemma_each_empty(texts(managed@), f);
        assert(p0 =~= p0 + each(texts(managed@).take(0), f));
    }
    let mut i: usize = 0;
    while i < managed.len()
        invariant
            0 <= i <= managed@.len(),
            texts(macs@) == config.mac_block_list.elems(),
            f == block_iface(bin@, config.mac_block_list.elems()),
            plan_spec(plan@) == p0 + each(texts(managed@).take(i as int), f),
        decreases managed@.len() - i,
    {
        let iface = &managed[i];
        let pre = vec![
            lit("-w"),
            lit("2"),
            lit("-t"),
            lit("mangle"),
            lit("-A"),
            lit("VSP_PRE"),
            lit("-i"),
            iface.clone(),
            lit("-m"),
            lit("mac"),
            lit("--mac-source"),
        ];
        let post = vec![lit("-j"), lit("MARK"), lit("--set-mark"), lit("0x80000001")];
        proof {
            assert(texts(pre@) =~= w2() + seq!["-t"@, "mangle"@, "-A"@, "VSP_PRE"@, "-i"@, iface@, "-m"@, "mac"@, "--mac-source"@]);
            assert(texts(post@) =~= seq!["-j"@, "MARK"@, "--set-mark"@, fwmark()]);
        }
        emit_around_each(plan, bin, &macs, &pre, &post);
        proof {
            lemma_each_step(texts(managed@), i as int, f);
            assert(texts(managed@)[i as int] == iface@);
            assert(plan_spec(plan@) =~= p0 + each(texts(managed@).take(i + 1), f));
        }
        i += 1;
    }
    proof {
        assert(texts(managed@).take(managed@.len() as int) =~= texts(managed@));
    }
}

/// Dotted-quad text of an IPv4 address.
pub fn dotted_quad_string(o: [u8; 4]) -> (r: String)
    ensures
        r@ == dotted_quad(o),
{
    let mut r = String::new();
    push_dec_u8(&mut r, o[0]);
    r.append(".");
    push_dec_u8(&mut r, o[1]);
    r.append(".");
    push_dec_u8(&mut r, o[2]);
    r.append(".");
    push_dec_u8(&mut r, o[3]);
    proof {
        assert(r@ =~= dotted_quad(o));
    }
    r
}

/// The IPv4 resolver that client DNS is redirected to, if any.
pub fn resolve_dns_v4(config: &GatewayConfig) -> (r: Option<String>)
    ensures
        opt_view(r) == resolve_dns_v4_spec(*config),
{
    match config.dns_redirect {
        DnsRedirectMode::Off => None,
        DnsRedirectMode::Custom => match config.custom_dns_v4 {
            Some(o) => Some(dotted_quad_string(o)),
            None => Some(lit("8.8.8.8")),
        },
        DnsRedirectMode::Auto => AndroidEnv::get_vpn_dns(false),
    }
}

/// Appends the DNS redirection rules of the IPv4 family.
fn apply_dns_nat_v4(plan: &mut Vec<FwCommand>, ipt: &String, config: &GatewayConfig, managed: &Vec<String>, tun: &String)
    requires
        texts(managed@) == sorted_listing(config.managed_ifaces@),
    ensures
        plan_spec(final(plan)@) == plan_spec(old(plan)@) + dns_nat_spec(
            ipt@,
            *config,
            sorted_listing(config.managed_ifaces@),
            tun@,
        ),
{
    let dns = resolve_dns_v4(config);
    match dns {
        None => {
            proof {
                assert(plan_spec(plan@) =~= plan_spec(old(plan)@) + Seq::<CmdSpec>::empty());
            }
        },
        Some(d) => {
            let mut target = d;
            target.append(":53");
            let post = vec![
                lit("-p"),
                lit("udp"),
                lit("--dport"),
                lit("53"),
                lit("-j"),
                lit("DNAT"),
                lit("--to"),
                target.clone(),
            ];
            proof {
                assert(texts(post@) =~= seq!["-p"@, "udp"@, "--dport"@, "53"@, "-j"@, "DNAT"@, "--to"@, target@]);
            }
            match config.proxy_mode {
                ProxyMode::Global => {
                    let pre = vec![
                        lit("-w"),
                        lit("2"),
                        lit("-t"),
                        lit("nat"),
                        lit("-A"),
                        lit("VSP_NAT"),
                        lit("!"),
                        lit("-i"),
                        tun.clone(),
                        lit("-m"),
                        lit("mark"),
                        lit("!"),
                        lit("--mark"),
                        lit("0x80000001/0xffffffff"),
                        lit("-s"),
                    ];
                    proof {
                        assert(texts(pre@) =~= w2() + seq![
                            "-t"@,
                            "nat"@,
                            "-A"@,
                            "VSP_NAT"@,
                            "!"@,
                            "-i"@,
                            tun@,
                            "-m"@,
                            "mark"@,
                            "!"@,
                            "--mark"@,
                            fwmark_mask(),
                            "-s"@,
                        ]);
                    }
                    emit_around_each(plan, ipt, &ranges_v4(), &pre, &post);
                },
                _ => {
                    let pre = vec![lit("-w"), lit("2"), lit("-t"), lit("nat"), lit("-A"), lit("VSP_NAT"), lit("-i")];
                    let post2 = join_args(
                        &vec![lit("-m"), lit("mark"), lit("!"), lit("--mark"), lit("0x80000001/0xffffffff")],
                        post,
                    );
                    proof {
                        assert(texts(pre@) =~= w2() + seq!["-t"@, "nat"@, "-A"@, "VSP_NAT"@, "-i"@]);
                        assert(texts(post2@) =~= seq![
                            "-m"@,
                            "mark"@,
                            "!"@,
                            "--mark"@,
                            fwmark_mask(),
                            "-p"@,
                            "udp"@,
                            "--dport"@,
                            "53"@,
                            "-j"@,
                            "DNAT"@,
                            "--to"@,
                            target@,
                        ]);
                    }
                    emit_around_each(plan, ipt, managed, &pre, &post2);
                },
            }
        },
    }
}

/// Appends the mangle rules of the configured mode.
fn apply_mangle(plan: &mut Vec<FwCommand>, bin: &String, config: &GatewayConfig, managed: &Vec<String>)
    requires
        texts(managed@) == sorted_listing(config.managed_ifaces@),
    ensures
        plan_spec(final(plan)@) == plan_spec(old(plan)@) + mangle_spec(
            bin@,
            *config,
            sorted_listing(config.managed_ifaces@),
        ),
{
    match config.proxy_mode {
        ProxyMode::MacAllowlist => apply_mangle_allow(plan, bin, config, managed),
        ProxyMode::MacBlocklist => apply_mangle_block(plan, bin, config, managed),
        ProxyMode::Global => {
            proof {
                assert(plan_spec(plan@) =~= plan_spec(old(plan)@) + Seq::<CmdSpec>::empty());
            }
        },
    }
}

/// The helper paths tried for `name`, in order of preference.
pub fn nf_helper_candidates(name: &str) -> (r: Vec<String>)
    ensures
        texts(r@) == helper_candidates_spec(name@),
        forall|i: int| 0 <= i < r@.len() ==> (#[trigger] r@[i])@.len() > 0 && r@[i]@[0] == '/',
{
    proof {
        lemma_helper_dirs_absolute(name@);
    }
    let dirs = vec![
        lit("/data/adb/modules/vpn_share_proxy/bin"),
        lit("/data/adb/modules/vpngw/bin"),
        lit("/data/adb/modules/vpn_gateway/bin"),
        lit("/system/bin"),
        lit("/system/xbin"),
        lit("/vendor/bin"),
    ];
    proof {
        assert(texts(dirs@) =~= helper_dirs());
    }
    let mut r: Vec<String> = Vec::new();
    let mut i: usize = 0;
    while i < dirs.len()
        invariant
            0 <= i <= dirs@.len(),
            texts(dirs@) == helper_dirs(),
            texts(r@) == helper_dirs().take(i as int).map_values(|d: Seq<char>| d + "/"@ + name@),
        decreases dirs@.len() - i,
    {
        let mut p = dirs[i].clone();
        p.append("/");
        p.append(name);
        let ghost r0 = r@;
        r.push(p);
        proof {
            assert(texts(r@) =~= texts(r0).push(p@));
            assert(helper_dirs()[i as int] == dirs@[i as int]@);
            assert(helper_dirs().take(i + 1).map_values(|d: Seq<char>| d + "/"@ + name@) =~= helper_dirs().take(
                i as int,
            ).map_values(|d: Seq<char>| d + "/"@ + name@).push(dirs@[i as int]@ + "/"@ + name@));
        }
        i += 1;
    }
    proof {
        assert(helper_dirs().take(6) =~= helper_dirs());
        assert forall|i: int| 0 <= i < r@.len() implies (#[trigger] r@[i])@.len() > 0 && r@[i]@[0] == '/' by {
            assert(texts(r@)[i] == r@[i]@);
        }
    }
    r
}

/// The first candidate path that is present as a regular file.
pub fn find_nf_helper(candidates: &Vec<String>, present: &Vec<bool>) -> (r: Option<String>)
    ensures
        opt_view(r) == first_present(texts(candidates@), present@),
{
    let mut i: usize = 0;
    proof {
        assert(texts(candidates@).skip(0) =~= texts(candidates@));
        assert(present@.skip(0) =~= present@);
    }
    while i < candidates.len() && i < present.len()
        invariant
            0 <= i <= candidates@.len(),
            i <= present@.len(),
            first_present(texts(candidates@), present@) == first_present(
                texts(candidates@).skip(i as int),
                present@.skip(i as int),
            ),
        decreases candidates@.len() - i,
    {
        proof {
            assert(texts(candidates@).skip(i as int).drop_first() =~= texts(candidates@).skip(i + 1));
            assert(present@.skip(i as int).drop_first() =~= present@.skip(i + 1));
        }
        if present[i] {
            return Some(candidates[i].clone());
        }
        i += 1;
    }
    proof {
        assert(texts(candidates@).skip(i as int).len() == 0 || present@.skip(i as int).len() == 0);
    }
    None
}

impl FirewallManager {
    /// Records what the kernel supports and which helpers were found. A family
    /// counts as supported when either probe says so.
    pub fn new(probe: NetfilterProbe, ipt_bin: Option<String>, ip6t_bin: Option<String>) -> (r: Self)
        ensures
            r.kernel_iptables == (probe.sockopt_v4 || probe.proc_v4),
            r.kernel_ip6tables == (probe.sockopt_v6 || probe.proc_v6),
            r.ipt_bin == ipt_bin,
            r.ip6t_bin == ip6t_bin,
    {
        FirewallManager {
            kernel_iptables: probe.sockopt_v4 || probe.proc_v4,
            kernel_ip6tables: probe.sockopt_v6 || probe.proc_v6,
            ipt_bin,
            ip6t_bin,
        }
    }

    /// Families whose helper is present and whose tables the kernel has get
    /// their jumps pinned.
    pub open spec fn hooks_spec(&self) -> Seq<CmdSpec> {
        (match self.ipt_bin {
            Some(b) => if self.kernel_iptables {
                pin_family_spec(b@)
            } else {
                seq![]
            },
            None => seq![],
        }) + (match self.ip6t_bin {
            Some(b) => if self.kernel_ip6tables {
                pin_family_spec(b@)
            } else {
                seq![]
            },
            None => seq![],
        })
    }

    fn pin_hooks(&self, plan: &mut Vec<FwCommand>)
        ensures
            plan_spec(final(plan)@) == plan_spec(old(plan)@) + self.hooks_spec(),
    {
        let ghost p0 = plan_spec(plan@);
        if let Some(ipt) = &self.ipt_bin {
            if self.kernel_iptables {
                pin_family(plan, ipt);
            }
        }
        let ghost p1 = plan_spec(plan@);
        if let Some(ip6t) = &self.ip6t_bin {
            if self.kernel_ip6tables {
                pin_family(plan, ip6t);
            }
        }
        proof {
            assert(plan_spec(plan@) =~= p0 + self.hooks_spec());
        }
    }

    /// Re-pins the proxy chains at the head of their hooks.
    pub fn ensure_hooks_pinned(&self) -> (r: Vec<FwCommand>)
        ensures
            plan_spec(r@) == self.hooks_spec(),
    {
        let mut plan: Vec<FwCommand> = Vec::new();
        proof {
            assert(plan_spec(plan@) =~= Seq::<CmdSpec>::empty());
        }
        self.pin_hooks(&mut plan);
        proof {
            assert(plan_spec(plan@) =~= self.hooks_spec());
        }
        plan
    }

    /// The IPv4 rules for `config` with the tunnel `tun`.
    pub open spec fn proxy_rules_spec(&self, config: GatewayConfig, tun: Seq<char>) -> Seq<CmdSpec> {
        match self.ipt_bin {
            None => seq![],
            Some(ipt) => if !self.kernel_iptables {
                seq![]
            } else {
                let m = sorted_listing(config.managed_ifaces@);
                self.hooks_spec() + flush_proxy_chains_spec(ipt@) + tcpmss_and_reply_spec(ipt@, tun)
                    + fwd_accept_spec(ipt@, config.proxy_mode, m, tun, private_ranges_v4())
                    + mangle_spec(ipt@, config, m) + dns_nat_spec(ipt@, config, m, tun)
            },
        }
    }

    /// Programs the IPv4 proxy chains: nothing without a helper or kernel
    /// tables; otherwise pin hooks, flush, clamp/accept, forward accepts,
    /// mangle marks of the mode, and DNS redirection.
    pub fn apply_proxy_rules(&self, config: &GatewayConfig, tun: &String) -> (r: Vec<FwCommand>)
        ensures
            plan_spec(r@) == self.proxy_rules_spec(*config, tun@),
    {
        let mut plan: Vec<FwCommand> = Vec::new();
        proof {
            assert(plan_spec(plan@) =~= Seq::<CmdSpec>::empty());
        }
        let ipt = match &self.ipt_bin {
            None => {
                return plan;
            },
            Some(b) => b,
        };
        if !self.kernel_iptables {
            return plan;
        }
        self.pin_hooks(&mut plan);
        flush_proxy_chains(&mut plan, ipt);
        let managed = config.managed_ifaces_sorted();
        apply_tcpmss_and_reply(&mut plan, ipt, tun);
        apply_fwd_accept(&mut plan, ipt, config, tun, &ranges_v4());
        apply_mangle(&mut plan, ipt, config, &managed);
        apply_dns_nat_v4(&mut plan, ipt, config, &managed, tun);
        proof {
            assert(plan_spec(plan@) =~= self.proxy_rules_spec(*config, tun@));
        }
        plan
    }

    /// The IPv6 rules: with the family off, client IPv6 forwarding is rejected
    /// so it cannot leak around the tunnel.
    pub open spec fn ipv6_rules_spec(&self, config: GatewayConfig, tun: Seq<char>, enabled: bool) -> Seq<CmdSpec> {
        match self.ip6t_bin {
            None => seq![],
            Some(b) => if !self.kernel_ip6tables {
                seq![]
            } else {
                let m = sorted_listing(config.managed_ifaces@);
                self.hooks_spec() + flush_proxy_chains_spec(b@) + if !enabled {
                    match config.proxy_mode {
                        ProxyMode::Global => each(private_ranges_v6(), reject_range(b@)),
                        _ => each(m, reject_iface(b@)),
                    }
                } else {
                    tcpmss_and_reply_spec(b@, tun) + fwd_accept_spec(
                        b@,
                        config.proxy_mode,
                        m,
                        tun,
                        private_ranges_v6(),
                    ) + mangle_spec(b@, config, m)
                }
            },
        }
    }

    /// Programs the IPv6 proxy chains.
    pub fn apply_ipv6_proxy_rules(&self, config: &GatewayConfig, tun: &String, enabled: bool) -> (r: Vec<FwCommand>)
        ensures
            plan_spec(r@) == self.ipv6_rules_spec(*config, tun@, enabled),
    {
        let mut plan: Vec<FwCommand> = Vec::new();
        proof {
            assert(plan_spec(plan@) =~= Seq::<CmdSpec>::empty());
        }
        let ip6t = match &self.ip6t_bin {
            None => {
                return plan;
            },
            Some(b) => b,
        };
        if !self.kernel_ip6tables {
            return plan;
        }
        self.pin_hooks(&mut plan);
        flush_proxy_chains(&mut plan, ip6t);
        let managed = config.managed_ifaces_sorted();
        let ghost p1 = plan_spec(plan@);
        if !enabled {
            let post = vec![lit("-j"), lit("REJECT"), lit("--reject-with"), lit("icmp6-addr-unreachable")];
            proof {
                assert(texts(post@) =~= seq!["-j"@, "REJECT"@, "--reject-with"@, "icmp6-addr-unreachable"@]);
            }
            match config.proxy_mode {
                ProxyMode::Global => {
                    let pre = vec![lit("-w"), lit("2"), lit("-A"), lit("VSP_FWD"), lit("-s")];
                    proof {
                        assert(texts(pre@) =~= w2() + seq!["-A"@, "VSP_FWD"@, "-s"@]);
                    }
                    emit_around_each(&mut plan, ip6t, &ranges_v6(), &pre, &post);
                },
                _ => {
                    let pre = vec![lit("-w"), lit("2"), lit("-A"), lit("VSP_FWD"), lit("-i")];
                    proof {
                        assert(texts(pre@) =~= w2() + seq!["-A"@, "VSP_FWD"@, "-i"@]);
                    }
                    emit_around_each(&mut plan, ip6t, &managed, &pre, &post);
                },
            }
            proof {
                assert(plan_spec(plan@) =~= self.ipv6_rules_spec(*config, tun@, enabled));
            }
            return plan;
        }
        apply_tcpmss_and_reply(&mut plan, ip6t, tun);
        apply_fwd_accept(&mut plan, ip6t, config, tun, &ranges_v6());
        apply_mangle(&mut plan, ip6t, config, &managed);
        proof {
            assert(plan_spec(plan@) =~= self.ipv6_rules_spec(*config, tun@, enabled));
        }
        plan
    }

    /// Removal of the proxy chains of every family whose helper is present.
    pub open spec fn cleanup_spec(&self) -> Seq<CmdSpec> {
        (match self.ipt_bin {
            Some(b) => teardown_family_spec(b@),
            None => seq![],
        }) + (match self.ip6t_bin {
            Some(b) => teardown_family_spec(b@),
            None => seq![],
        })
    }

    /// Removes the proxy chains and their jumps.
    pub fn cleanup(&self) -> (r: Vec<FwCommand>)
        ensures
            plan_spec(r@) == self.cleanup_spec(),
    {
        let mut plan: Vec<FwCommand> = Vec::new();
        proof {
            assert(plan_spec(plan@) =~= Seq::<CmdSpec>::empty());
        }
        if let Some(ipt) = &self.ipt_bin {
            teardown_family(&mut plan, ipt);
        }
        let ghost p1 = plan_spec(plan@);
        if let Some(ip6t) = &self.ip6t_bin {
            teardown_family(&mut plan, ip6t);
        }
        proof {
            assert(plan_spec(plan@) =~= self.cleanup_spec());
        }
        plan
    }
}

/// An invocation that accepts forwarded traffic leaving through `tun`
/// (`... -o tun ... ACCEPT`).
pub open spec fn accepts_to_tun(c: CmdSpec, tun: Seq<char>) -> bool {
    &&& c.args.len() >= 2
    &&& c.args.last() == "ACCEPT"@
    &&& exists|k: int| 0 <= k < c.args.len() - 1 && #[trigger] c.args[k] == "-o"@ && c.args[k + 1] == tun
}

/// The invocation that clamps the MSS of client SYNs leaving through `tun`.
pub open spec fn mss_clamp(c: CmdSpec, tun: Seq<char>) -> bool {
    c == tcpmss_and_reply_spec(c.bin, tun)[0]
}

/// The last argument names one of the proxy chains.
spec fn ends_in_chain(c: CmdSpec) -> bool {
    c.args.len() > 0 && (c.args.last() == "VSP_FWD"@ || c.args.last() == "VSP_PRE"@ || c.args.last() == "VSP_NAT"@)
}

proof fn lemma_chain_is_no_accept(c: CmdSpec, tun: Seq<char>)
    requires
        ends_in_chain(c),
    ensures
        !accepts_to_tun(c, tun),
{
    reveal_strlit("VSP_FWD");
    reveal_strlit("VSP_PRE");
    reveal_strlit("VSP_NAT");
    reveal_strlit("ACCEPT");
    assert("VSP_FWD"@.len() != "ACCEPT"@.len());
}

proof fn lemma_pin_jump_ends(bin: Seq<char>, t: Seq<Seq<char>>, root: Seq<char>, chain: Seq<char>)
    ensures
        pin_jump_spec(bin, t, root, chain).len() == 3,
        forall|i: int|
            0 <= i < 3 ==> (#[trigger] pin_jump_spec(bin, t, root, chain)[i]).args.len() > 0
                && pin_jump_spec(bin, t, root, chain)[i].args.last() == chain,
{
}

proof fn lemma_hooks_end_in_chains(fw: FirewallManager)
    ensures
        forall|i: int| 0 <= i < fw.hooks_spec().len() ==> ends_in_chain(#[trigger] fw.hooks_spec()[i]),
{
    assert forall|b: Seq<char>, i: int| 0 <= i < pin_family_spec(b).len() implies ends_in_chain(
        #[trigger] pin_family_spec(b)[i],
    ) by {
        lemma_pin_jump_ends(b, seq![], "FORWARD"@, "VSP_FWD"@);
        lemma_pin_jump_ends(b, seq!["-t"@, "mangle"@], "PREROUTING"@, "VSP_PRE"@);
        lemma_pin_jump_ends(b, seq!["-t"@, "nat"@], "PREROUTING"@, "VSP_NAT"@);
        let p0 = pin_jump_spec(b, seq![], "FORWARD"@, "VSP_FWD"@);
        let p1 = pin_jump_spec(b, seq!["-t"@, "mangle"@], "PREROUTING"@, "VSP_PRE"@);
        let p2 = pin_jump_spec(b, seq!["-t"@, "nat"@], "PREROUTING"@, "VSP_NAT"@);
        if i < 3 {
            assert(pin_family_spec(b)[i] == p0[i]);
        } else if i < 6 {
            assert(pin_family_spec(b)[i] == p1[i - 3]);
        } else {
            assert(pin_family_spec(b)[i] == p2[i - 6]);
        }
    }
    let h4: Seq<CmdSpec> = match fw.ipt_bin {
        Some(b) => if fw.kernel_iptables { pin_family_spec(b@) } else { seq![] },
        None => seq![],
    };
    let h6: Seq<CmdSpec> = match fw.ip6t_bin {
        Some(b) => if fw.kernel_ip6tables { pin_family_spec(b@) } else { seq![] },
        None => seq![],
    };
    assert(fw.hooks_spec() == h4 + h6);
    assert forall|i: int| 0 <= i < fw.hooks_spec().len() implies ends_in_chain(#[trigger] fw.hooks_spec()[i]) by {
        if i < h4.len() {
            assert(fw.hooks_spec()[i] == h4[i]);
        } else {
            assert(fw.hooks_spec()[i] == h6[i - h4.len()]);
        }
    }
}

/// The start that every programmed family shares: pinned hooks, flushed
/// chains, then the clamp and the reply accept.
proof fn lemma_clamp_first(fw: FirewallManager, b: Seq<char>, tun: Seq<char>, rest: Seq<CmdSpec>)
    ensures
        forall|j: int|
            0 <= j < (fw.hooks_spec() + flush_proxy_chains_spec(b) + tcpmss_and_reply_spec(b, tun) + rest).len()
                && accepts_to_tun(
                #[trigger] (fw.hooks_spec() + flush_proxy_chains_spec(b) + tcpmss_and_reply_spec(b, tun) + rest)[j],
                tun,
            ) ==> exists|t: int|
                0 <= t < j && mss_clamp(
                    #[trigger] (fw.hooks_spec() + flush_proxy_chains_spec(b) + tcpmss_and_reply_spec(b, tun) + rest)[t],
                    tun,
                ),
{
    let h = fw.hooks_spec();
    let f = flush_proxy_chains_spec(b);
    let c = tcpmss_and_reply_spec(b, tun);
    let p = h + f + c + rest;
    lemma_hooks_end_in_chains(fw);
    let t0 = h.len() + 3int;
    assert(p[t0] == c[0]);
    assert(mss_clamp(p[t0], tun));
    assert forall|j: int| 0 <= j < p.len() && accepts_to_tun(#[trigger] p[j], tun) implies exists|t: int|
        0 <= t < j && mss_clamp(#[trigger] p[t], tun) by {
        if j < h.len() {
            assert(p[j] == h[j]);
            lemma_chain_is_no_accept(p[j], tun);
        } else if j < h.len() + 3 {
            assert(p[j] == f[j - h.len()]);
            assert(ends_in_chain(f[j - h.len()]));
            lemma_chain_is_no_accept(p[j], tun);
        } else if j == t0 {
            reveal_strlit("ACCEPT");
            reveal_strlit("--clamp-mss-to-pmtu");
            assert(p[j].args.last() == "--clamp-mss-to-pmtu"@);
            assert("--clamp-mss-to-pmtu"@.len() != "ACCEPT"@.len());
        } else {
            assert(t0 < j);
        }
    }
}

/// The MSS clamp does not end the chain, so it has to come before any accept
/// of traffic towards the tunnel: in the IPv4 rules and in the IPv6 rules of
/// an enabled family, every invocation that accepts traffic leaving through
/// the tunnel comes after the clamp.
pub proof fn law_mss_clamp_precedes_tunnel_accepts(fw: FirewallManager, config: GatewayConfig, tun: Seq<char>)
    ensures
        forall|j: int|
            0 <= j < fw.proxy_rules_spec(config, tun).len() && accepts_to_tun(
                #[trigger] fw.proxy_rules_spec(config, tun)[j],
                tun,
            ) ==> exists|t: int| 0 <= t < j && mss_clamp(#[trigger] fw.proxy_rules_spec(config, tun)[t], tun),
        forall|j: int|
            0 <= j < fw.ipv6_rules_spec(config, tun, true).len() && accepts_to_tun(
                #[trigger] fw.ipv6_rules_spec(config, tun, true)[j],
                tun,
            ) ==> exists|t: int| 0 <= t < j && mss_clamp(#[trigger] fw.ipv6_rules_spec(config, tun, true)[t], tun),
{
    let m = sorted_listing(config.managed_ifaces@);
    match fw.ipt_bin {
        Some(ipt) => if fw.kernel_iptables {
            let rest = fwd_accept_spec(ipt@, config.proxy_mode, m, tun, private_ranges_v4()) + mangle_spec(ipt@, config, m)
                + dns_nat_spec(ipt@, config, m, tun);
            lemma_clamp_first(fw, ipt@, tun, rest);
            assert(fw.proxy_rules_spec(config, tun) =~= fw.hooks_spec() + flush_proxy_chains_spec(ipt@)
                + tcpmss_and_reply_spec(ipt@, tun) + rest);
        },
        None => {},
    }
    match fw.ip6t_bin {
        Some(b) => if fw.kernel_ip6tables {
            let rest = fwd_accept_spec(b@, config.proxy_mode, m, tun, private_ranges_v6()) + mangle_spec(b@, config, m);
            lemma_clamp_first(fw, b@, tun, rest);
            assert(fw.ipv6_rules_spec(config, tun, true) =~= fw.hooks_spec() + flush_proxy_chains_spec(b@)
                + tcpmss_and_reply_spec(b@, tun) + rest);
        },
        None => {},
    }
}

proof fn lemma_each_around_last(items: Seq<Seq<char>>, bin: Seq<char>, pre: Seq<Seq<char>>, post: Seq<Seq<char>>)
    requires
        post.len() > 0,
    ensures
        forall|i: int|
            0 <= i < each(items, around(bin, pre, post)).len() ==> (#[trigger] each(items, around(bin, pre, post))[i]).args.len()
                > 0 && each(items, around(bin, pre, post))[i].args.last() == post.last(),
    decreases items.len(),
{
    if items.len() > 0 {
        lemma_each_around_last(items.drop_last(), bin, pre, post);
        let prev = each(items.drop_last(), around(bin, pre, post));
        let all = each(items, around(bin, pre, post));
        let c = run(bin, pre + seq![items.last()] + post);
        assert(all == prev + seq![c]);
        assert(c.args.last() == post.last());
        assert forall|i: int| 0 <= i < all.len() implies (#[trigger] all[i]).args.len() > 0 && all[i].args.last()
            == post.last() by {
            if i < prev.len() {
                assert(all[i] == prev[i]);
            } else {
                assert(all[i] == c);
            }
        }
    }
}

/// With the IPv6 family off, its rules accept nothing towards the tunnel:
/// client IPv6 is only rejected, so it cannot leak around the VPN.
pub proof fn law_ipv6_off_accepts_nothing(fw: FirewallManager, config: GatewayConfig, tun: Seq<char>)
    ensures
        forall|j: int|
            0 <= j < fw.ipv6_rules_spec(config, tun, false).len() ==> !accepts_to_tun(
                #[trigger] fw.ipv6_rules_spec(config, tun, false)[j],
                tun,
            ),
{
    match fw.ip6t_bin {
        Some(b) => if fw.kernel_ip6tables {
            let m = sorted_listing(config.managed_ifaces@);
            let post = seq!["-j"@, "REJECT"@, "--reject-with"@, "icmp6-addr-unreachable"@];
            let rej = match config.proxy_mode {
                ProxyMode::Global => each(private_ranges_v6(), reject_range(b@)),
                _ => each(m, reject_iface(b@)),
            };
            lemma_each_around_last(private_ranges_v6(), b@, w2() + seq!["-A"@, "VSP_FWD"@, "-s"@], post);
            lemma_each_around_last(m, b@, w2() + seq!["-A"@, "VSP_FWD"@, "-i"@], post);
            lemma_hooks_end_in_chains(fw);
            let h = fw.hooks_spec();
            let f = flush_proxy_chains_spec(b@);
            let p = fw.ipv6_rules_spec(config, tun, false);
            assert(p =~= h + f + rej);
            reveal_strlit("ACCEPT");
            reveal_strlit("icmp6-addr-unreachable");
            assert forall|j: int| 0 <= j < p.len() implies !accepts_to_tun(#[trigger] p[j], tun) by {
                if j < h.len() {
                    assert(p[j] == h[j]);
                    lemma_chain_is_no_accept(p[j], tun);
                } else if j < h.len() + 3 {
                    assert(p[j] == f[j - h.len()]);
                    assert(ends_in_chain(f[j - h.len()]));
                    lemma_chain_is_no_accept(p[j], tun);
                } else {
                    assert(p[j] == rej[j - h.len() - 3]);
                    assert(p[j].args.last() == "icmp6-addr-unreachable"@);
                    assert("icmp6-addr-unreachable"@.len() != "ACCEPT"@.len());
                }
            }
        },
        None => {},
    }
}

/// The managed interfaces only matter in the allow/block modes: in global
/// mode the netfilter rules and the FIB rules are the same whatever the set
/// holds; in the other modes an empty set adds no client rules, so the IPv4
/// rules are only the common start (hooks, flushes, clamp and reply accept)
/// and the FIB rules only the bypass rules and the anchor.
pub proof fn law_managed_ifaces_scope(
    fw: FirewallManager,
    a: GatewayConfig,
    b: GatewayConfig,
    tun: Seq<char>,
    o: ByteOrder,
    family: u8,
    table: u32,
    m1: Seq<Seq<char>>,
    m2: Seq<Seq<char>>,
)
    requires
        b == (GatewayConfig { managed_ifaces: b.managed_ifaces, ..a }),
    ensures
        a.proxy_mode == ProxyMode::Global ==> fw.proxy_rules_spec(a, tun) == fw.proxy_rules_spec(b, tun),
        a.proxy_mode == ProxyMode::Global ==> fw.ipv6_rules_spec(a, tun, true) == fw.ipv6_rules_spec(b, tun, true),
        a.proxy_mode == ProxyMode::Global ==> fw.ipv6_rules_spec(a, tun, false) == fw.ipv6_rules_spec(b, tun, false),
        family_rules_spec(o, family, family_ranges(family), tun, table, ProxyMode::Global, m1) == family_rules_spec(
            o,
            family,
            family_ranges(family),
            tun,
            table,
            ProxyMode::Global,
            m2,
        ),
        b.proxy_mode != ProxyMode::Global && b.managed_ifaces@ == Set::<Seq<char>>::empty() ==> match fw.ipt_bin {
            Some(ipt) => fw.kernel_iptables ==> fw.proxy_rules_spec(b, tun) == fw.hooks_spec()
                + flush_proxy_chains_spec(ipt@) + tcpmss_and_reply_spec(ipt@, tun),
            None => true,
        },
        family_rules_spec(o, family, family_ranges(family), tun, table, ProxyMode::MacAllowlist, seq![])
            == bypass_rules_spec(o, family, tun) + seq![nop_spec(o, family, PREF_ANCHOR_NOP)],
        family_rules_spec(o, family, family_ranges(family), tun, table, ProxyMode::MacBlocklist, seq![])
            == bypass_rules_spec(o, family, tun) + seq![nop_spec(o, family, PREF_ANCHOR_NOP)],
{
    if b.proxy_mode != ProxyMode::Global && b.managed_ifaces@ == Set::<Seq<char>>::empty() {
        let e = Seq::<Seq<char>>::empty();
        assert(e.to_set() =~= Set::<Seq<char>>::empty());
        lemma_is_sorted_listing(e, b.managed_ifaces@);
        match fw.ipt_bin {
            Some(ipt) => if fw.kernel_iptables {
                assert(fw.proxy_rules_spec(b, tun) =~= fw.hooks_spec() + flush_proxy_chains_spec(ipt@)
                    + tcpmss_and_reply_spec(ipt@, tun));
            },
            None => {},
        }
    }
    assert(iface_rules_spec(o, family, seq![], tun, table, PREF_HOTSPOT_BASE as int) =~= Seq::<RuleView>::empty());
    assert(family_rules_spec(o, family, family_ranges(family), tun, table, ProxyMode::MacAllowlist, seq![])
        =~= bypass_rules_spec(o, family, tun) + seq![nop_spec(o, family, PREF_ANCHOR_NOP)]);
    assert(family_rules_spec(o, family, family_ranges(family), tun, table, ProxyMode::MacBlocklist, seq![])
        =~= bypass_rules_spec(o, family, tun) + seq![nop_spec(o, family, PREF_ANCHOR_NOP)]);
}

/// One of the proxy chains.
pub open spec fn proxy_chain(c: Seq<char>) -> bool {
    c == "VSP_FWD"@ || c == "VSP_PRE"@ || c == "VSP_NAT"@
}

/// An invocation of `bin` that names one of the proxy chains.
pub open spec fn on_proxy_chain(c: CmdSpec, bin: Seq<char>) -> bool {
    c.bin == bin && exists|k: int| 0 <= k < c.args.len() && proxy_chain(#[trigger] c.args[k])
}

proof fn lemma_each_all(items: Seq<Seq<char>>, f: spec_fn(Seq<char>) -> Seq<CmdSpec>, bin: Seq<char>)
    requires
        forall|x: Seq<char>, k: int| 0 <= k < f(x).len() ==> on_proxy_chain(#[trigger] f(x)[k], bin),
    ensures
        forall|i: int| 0 <= i < each(items, f).len() ==> on_proxy_chain(#[trigger] each(items, f)[i], bin),
    decreases items.len(),
{
    if items.len() > 0 {
        lemma_each_all(items.drop_last(), f, bin);
        let prev = each(items.drop_last(), f);
        let last = f(items.last());
        let all = each(items, f);
        assert(all == prev + last);
        assert forall|i: int| 0 <= i < all.len() implies on_proxy_chain(#[trigger] all[i], bin) by {
            if i < prev.len() {
                assert(all[i] == prev[i]);
            } else {
                assert(all[i] == last[i - prev.len()]);
            }
        }
    }
}

/// A rule built by `around` whose fixed start names a proxy chain at `k`.
proof fn lemma_around_on_chain(bin: Seq<char>, pre: Seq<Seq<char>>, post: Seq<Seq<char>>, k: int)
    requires
        0 <= k < pre.len(),
        proxy_chain(pre[k]),
    ensures
        forall|x: Seq<char>, i: int| 0 <= i < around(bin, pre, post)(x).len() ==> on_proxy_chain(
            #[trigger] around(bin, pre, post)(x)[i],
            bin,
        ),
{
    assert forall|x: Seq<char>, i: int| 0 <= i < around(bin, pre, post)(x).len() implies on_proxy_chain(
        #[trigger] around(bin, pre, post)(x)[i],
        bin,
    ) by {
        let c = around(bin, pre, post)(x)[i];
        assert(c.args[k] == pre[k]);
    }
}

proof fn lemma_fixed_on_chain(bin: Seq<char>)
    ensures
        forall|i: int| 0 <= i < pin_family_spec(bin).len() ==> on_proxy_chain(#[trigger] pin_family_spec(bin)[i], bin),
        forall|i: int| 0 <= i < flush_proxy_chains_spec(bin).len() ==> on_proxy_chain(
            #[trigger] flush_proxy_chains_spec(bin)[i],
            bin,
        ),
        forall|tun: Seq<char>, i: int| 0 <= i < tcpmss_and_reply_spec(bin, tun).len() ==> on_proxy_chain(
            #[trigger] tcpmss_and_reply_spec(bin, tun)[i],
            bin,
        ),
{
    lemma_pin_jump_ends(bin, seq![], "FORWARD"@, "VSP_FWD"@);
    lemma_pin_jump_ends(bin, seq!["-t"@, "mangle"@], "PREROUTING"@, "VSP_PRE"@);
    lemma_pin_jump_ends(bin, seq!["-t"@, "nat"@], "PREROUTING"@, "VSP_NAT"@);
    assert forall|i: int| 0 <= i < pin_family_spec(bin).len() implies on_proxy_chain(#[trigger] pin_family_spec(bin)[i], bin) by {
        let c = pin_family_spec(bin)[i];
        assert(c.args[c.args.len() - 1] == c.args.last());
    }
    assert forall|i: int| 0 <= i < flush_proxy_chains_spec(bin).len() implies on_proxy_chain(
        #[trigger] flush_proxy_chains_spec(bin)[i],
        bin,
    ) by {
        let c = flush_proxy_chains_spec(bin)[i];
        assert(c.args[c.args.len() - 1] == c.args.last());
    }
    assert forall|tun: Seq<char>, i: int| 0 <= i < tcpmss_and_reply_spec(bin, tun).len() implies on_proxy_chain(
        #[trigger] tcpmss_and_reply_spec(bin, tun)[i],
        bin,
    ) by {
        assert(tcpmss_and_reply_spec(bin, tun)[i].args[3] == "VSP_FWD"@);
    }
}

proof fn lemma_mangle_on_chain(bin: Seq<char>, config: GatewayConfig, m: Seq<Seq<char>>)
    ensures
        forall|i: int| 0 <= i < mangle_spec(bin, config, m).len() ==> on_proxy_chain(#[trigger] mangle_spec(bin, config, m)[i], bin),
{
    let pre = |iface: Seq<char>| w2() + seq!["-t"@, "mangle"@, "-A"@, "VSP_PRE"@, "-i"@, iface, "-m"@, "mac"@, "--mac-source"@];
    assert forall|iface: Seq<char>| proxy_chain(#[trigger] pre(iface)[5]) by {}
    match config.proxy_mode {
        ProxyMode::MacAllowlist => {
            let macs = config.mac_allow_list.elems();
            assert forall|iface: Seq<char>, k: int| 0 <= k < allow_iface(bin, macs)(iface).len() implies on_proxy_chain(
                #[trigger] allow_iface(bin, macs)(iface)[k],
                bin,
            ) by {
                lemma_around_on_chain(bin, pre(iface), seq!["-j"@, "RETURN"@], 5);
                lemma_each_all(macs, allow_return(bin, iface), bin);
                let r = each(macs, allow_return(bin, iface));
                let all = allow_iface(bin, macs)(iface);
                assert(all == r + seq![iface_mark(bin, iface)]);
                if k < r.len() {
                    assert(all[k] == r[k]);
                } else {
                    assert(all[k] == iface_mark(bin, iface));
                    assert(iface_mark(bin, iface).args[5] == "VSP_PRE"@);
                }
            }
            lemma_each_all(m, allow_iface(bin, macs), bin);
        },
        ProxyMode::MacBlocklist => {
            let macs = config.mac_block_list.elems();
            assert forall|iface: Seq<char>, k: int| 0 <= k < block_iface(bin, macs)(iface).len() implies on_proxy_chain(
                #[trigger] block_iface(bin, macs)(iface)[k],
                bin,
            ) by {
                lemma_around_on_chain(bin, pre(iface), seq!["-j"@, "MARK"@, "--set-mark"@, fwmark()], 5);
                lemma_each_all(macs, block_mark(bin, iface), bin);
            }
            lemma_each_all(m, block_iface(bin, macs), bin);
        },
        ProxyMode::Global => {},
    }
}

proof fn lemma_accept_dns_on_chain(bin: Seq<char>, config: GatewayConfig, m: Seq<Seq<char>>, tun: Seq<char>)
    ensures
        forall|ranges: Seq<Seq<char>>, i: int| 0 <= i < fwd_accept_spec(bin, config.proxy_mode, m, tun, ranges).len()
            ==> on_proxy_chain(#[trigger] fwd_accept_spec(bin, config.proxy_mode, m, tun, ranges)[i], bin),
        forall|i: int| 0 <= i < dns_nat_spec(bin, config, m, tun).len() ==> on_proxy_chain(
            #[trigger] dns_nat_spec(bin, config, m, tun)[i],
            bin,
        ),
{
    let post = seq!["-o"@, tun, "-j"@, "ACCEPT"@];
    lemma_around_on_chain(bin, w2() + seq!["-A"@, "VSP_FWD"@, "-s"@], post, 3);
    lemma_around_on_chain(bin, w2() + seq!["-A"@, "VSP_FWD"@, "-i"@], post, 3);
    assert forall|ranges: Seq<Seq<char>>, i: int| 0 <= i < fwd_accept_spec(bin, config.proxy_mode, m, tun, ranges).len()
        implies on_proxy_chain(#[trigger] fwd_accept_spec(bin, config.proxy_mode, m, tun, ranges)[i], bin) by {
        lemma_each_all(ranges, fwd_accept_range(bin, tun), bin);
        lemma_each_all(m, fwd_accept_iface(bin, tun), bin);
    }
    match resolve_dns_v4_spec(config) {
        Some(dns) => {
            let target = dns + ":53"@;
            lemma_around_on_chain(
                bin,
                w2() + seq![
                    "-t"@,
                    "nat"@,
                    "-A"@,
                    "VSP_NAT"@,
                    "!"@,
                    "-i"@,
                    tun,
                    "-m"@,
                    "mark"@,
                    "!"@,
                    "--mark"@,
                    fwmark_mask(),
                    "-s"@,
                ],
                seq!["-p"@, "udp"@, "--dport"@, "53"@, "-j"@, "DNAT"@, "--to"@, target],
                5,
            );
            lemma_around_on_chain(
                bin,
                w2() + seq!["-t"@, "nat"@, "-A"@, "VSP_NAT"@, "-i"@],
                seq![
                    "-m"@,
                    "mark"@,
                    "!"@,
                    "--mark"@,
                    fwmark_mask(),
                    "-p"@,
                    "udp"@,
                    "--dport"@,
                    "53"@,
                    "-j"@,
                    "DNAT"@,
                    "--to"@,
                    target,
                ],
                5,
            );
            lemma_each_all(private_ranges_v4(), dnat_range(bin, tun, target), bin);
            lemma_each_all(m, dnat_iface(bin, target), bin);
        },
        None => {},
    }
}

/// The cleanup runs the whole teardown of the family of helper `bin`.
pub open spec fn cleans(fw: FirewallManager, bin: Seq<char>) -> bool {
    forall|k: int| 0 <= k < teardown_family_spec(bin).len() ==> fw.cleanup_spec().contains(
        #[trigger] teardown_family_spec(bin)[k],
    )
}

/// An invocation that works on a proxy chain of a helper whose family the
/// cleanup tears down (jumps removed, chains flushed and deleted).
pub open spec fn torn_down(fw: FirewallManager, c: CmdSpec) -> bool {
    on_proxy_chain(c, c.bin) && cleans(fw, c.bin)
}

pub open spec fn all_torn_down(fw: FirewallManager, p: Seq<CmdSpec>) -> bool {
    forall|i: int| 0 <= i < p.len() ==> torn_down(fw, #[trigger] p[i])
}

proof fn lemma_all_torn_concat(fw: FirewallManager, a: Seq<CmdSpec>, b: Seq<CmdSpec>)
    requires
        all_torn_down(fw, a),
        all_torn_down(fw, b),
    ensures
        all_torn_down(fw, a + b),
{
    assert forall|i: int| 0 <= i < (a + b).len() implies torn_down(fw, #[trigger] (a + b)[i]) by {
        if i < a.len() {
            assert((a + b)[i] == a[i]);
        } else {
            assert((a + b)[i] == b[i - a.len()]);
        }
    }
}

proof fn lemma_all_torn_part(fw: FirewallManager, s: Seq<CmdSpec>, bin: Seq<char>)
    requires
        forall|i: int| 0 <= i < s.len() ==> on_proxy_chain(#[trigger] s[i], bin),
        cleans(fw, bin),
    ensures
        all_torn_down(fw, s),
{
    assert forall|i: int| 0 <= i < s.len() implies torn_down(fw, #[trigger] s[i]) by {
        assert(on_proxy_chain(s[i], bin));
    }
}

proof fn lemma_cleans_helpers(fw: FirewallManager)
    ensures
        fw.ipt_bin is Some ==> cleans(fw, fw.ipt_bin->0@),
        fw.ip6t_bin is Some ==> cleans(fw, fw.ip6t_bin->0@),
{
    let t4: Seq<CmdSpec> = match fw.ipt_bin {
        Some(b) => teardown_family_spec(b@),
        None => seq![],
    };
    let t6: Seq<CmdSpec> = match fw.ip6t_bin {
        Some(b) => teardown_family_spec(b@),
        None => seq![],
    };
    let c = fw.cleanup_spec();
    assert(c == t4 + t6);
    if fw.ipt_bin is Some {
        assert forall|k: int| 0 <= k < t4.len() implies c.contains(#[trigger] t4[k]) by {
            assert(c[k] == t4[k]);
        }
    }
    if fw.ip6t_bin is Some {
        assert forall|k: int| 0 <= k < t6.len() implies c.contains(#[trigger] t6[k]) by {
            assert(c[t4.len() + k] == t6[k]);
        }
    }
}

proof fn lemma_hooks_torn_down(fw: FirewallManager)
    ensures
        all_torn_down(fw, fw.hooks_spec()),
{
    lemma_cleans_helpers(fw);
    let h4: Seq<CmdSpec> = match fw.ipt_bin {
        Some(b) => if fw.kernel_iptables { pin_family_spec(b@) } else { seq![] },
        None => seq![],
    };
    let h6: Seq<CmdSpec> = match fw.ip6t_bin {
        Some(b) => if fw.kernel_ip6tables { pin_family_spec(b@) } else { seq![] },
        None => seq![],
    };
    match fw.ipt_bin {
        Some(b) => {
            lemma_fixed_on_chain(b@);
            lemma_all_torn_part(fw, h4, b@);
        },
        None => {},
    }
    match fw.ip6t_bin {
        Some(b) => {
            lemma_fixed_on_chain(b@);
            lemma_all_torn_part(fw, h6, b@);
        },
        None => {},
    }
    lemma_all_torn_concat(fw, h4, h6);
    assert(fw.hooks_spec() == h4 + h6);
}

/// Everything an install programs works on a proxy chain (a rule in it, its
/// flush, or the jump into it) through a helper whose whole family the
/// cleanup tears down; so the cleanup leaves none of the installed netfilter
/// rules behind, in either family.
pub proof fn law_cleanup_covers_install(fw: FirewallManager, config: GatewayConfig, tun: Seq<char>, enabled: bool)
    ensures
        all_torn_down(fw, fw.hooks_spec()),
        all_torn_down(fw, fw.proxy_rules_spec(config, tun)),
        all_torn_down(fw, fw.ipv6_rules_spec(config, tun, enabled)),
{
    lemma_hooks_torn_down(fw);
    lemma_cleans_helpers(fw);
    let m = sorted_listing(config.managed_ifaces@);
    match fw.ipt_bin {
        Some(ipt) => if fw.kernel_iptables {
            let b = ipt@;
            lemma_fixed_on_chain(b);
            lemma_mangle_on_chain(b, config, m);
            lemma_accept_dns_on_chain(b, config, m, tun);
            lemma_all_torn_part(fw, flush_proxy_chains_spec(b), b);
            lemma_all_torn_part(fw, tcpmss_and_reply_spec(b, tun), b);
            lemma_all_torn_part(fw, fwd_accept_spec(b, config.proxy_mode, m, tun, private_ranges_v4()), b);
            lemma_all_torn_part(fw, mangle_spec(b, config, m), b);
            lemma_all_torn_part(fw, dns_nat_spec(b, config, m, tun), b);
            let p1 = fw.hooks_spec() + flush_proxy_chains_spec(b);
            lemma_all_torn_concat(fw, fw.hooks_spec(), flush_proxy_chains_spec(b));
            let p2 = p1 + tcpmss_and_reply_spec(b, tun);
            lemma_all_torn_concat(fw, p1, tcpmss_and_reply_spec(b, tun));
            let p3 = p2 + fwd_accept_spec(b, config.proxy_mode, m, tun, private_ranges_v4());
            lemma_all_torn_concat(fw, p2, fwd_accept_spec(b, config.proxy_mode, m, tun, private_ranges_v4()));
            let p4 = p3 + mangle_spec(b, config, m);
            lemma_all_torn_concat(fw, p3, mangle_spec(b, config, m));
            lemma_all_torn_concat(fw, p4, dns_nat_spec(b, config, m, tun));
            assert(fw.proxy_rules_spec(config, tun) == p4 + dns_nat_spec(b, config, m, tun));
        },
        None => {},
    }
    match fw.ip6t_bin {
        Some(ip6t) => if fw.kernel_ip6tables {
            let b = ip6t@;
            lemma_fixed_on_chain(b);
            lemma_all_torn_part(fw, flush_proxy_chains_spec(b), b);
            let p1 = fw.hooks_spec() + flush_proxy_chains_spec(b);
            lemma_all_torn_concat(fw, fw.hooks_spec(), flush_proxy_chains_spec(b));
            if enabled {
                lemma_mangle_on_chain(b, config, m);
                lemma_accept_dns_on_chain(b, config, m, tun);
                lemma_all_torn_part(fw, tcpmss_and_reply_spec(b, tun), b);
                lemma_all_torn_part(fw, fwd_accept_spec(b, config.proxy_mode, m, tun, private_ranges_v6()), b);
                lemma_all_torn_part(fw, mangle_spec(b, config, m), b);
                let q = tcpmss_and_reply_spec(b, tun) + fwd_accept_spec(b, config.proxy_mode, m, tun, private_ranges_v6())
                    + mangle_spec(b, config, m);
                lemma_all_torn_concat(
                    fw,
                    tcpmss_and_reply_spec(b, tun),
                    fwd_accept_spec(b, config.proxy_mode, m, tun, private_ranges_v6()),
                );
                lemma_all_torn_concat(
                    fw,
                    tcpmss_and_reply_spec(b, tun) + fwd_accept_spec(b, config.proxy_mode, m, tun, private_ranges_v6()),
                    mangle_spec(b, config, m),
                );
                lemma_all_torn_concat(fw, p1, q);
                assert(fw.ipv6_rules_spec(config, tun, enabled) == p1 + q);
            } else {
                let post = seq!["-j"@, "REJECT"@, "--reject-with"@, "icmp6-addr-unreachable"@];
                lemma_around_on_chain(b, w2() + seq!["-A"@, "VSP_FWD"@, "-s"@], post, 3);
                lemma_around_on_chain(b, w2() + seq!["-A"@, "VSP_FWD"@, "-i"@], post, 3);
                lemma_each_all(private_ranges_v6(), reject_range(b), b);
                lemma_each_all(m, reject_iface(b), b);
                let rej = match config.proxy_mode {
                    ProxyMode::Global => each(private_ranges_v6(), reject_range(b)),
                    _ => each(m, reject_iface(b)),
                };
                lemma_all_torn_part(fw, rej, b);
                lemma_all_torn_concat(fw, p1, rej);
                assert(fw.ipv6_rules_spec(config, tun, enabled) == p1 + rej);
            }
        },
        None => {},
    }
}

/// A rule that one item's rules hold is among the rules of all items.
proof fn lemma_each_has(items: Seq<Seq<char>>, f: spec_fn(Seq<char>) -> Seq<CmdSpec>, k: int, c: CmdSpec)
    requires
        0 <= k < items.len(),
        f(items[k]).contains(c),
    ensures
        each(items, f).contains(c),
    decreases items.len(),
{
    let prev = each(items.drop_last(), f);
    let last = f(items.last());
    assert(each(items, f) == prev + last);
    if k == items.len() - 1 {
        let j = choose|j: int| 0 <= j < last.len() && last[j] == c;
        assert((prev + last)[prev.len() + j] == c);
    } else {
        assert(items.drop_last()[k] == items[k]);
        lemma_each_has(items.drop_last(), f, k, c);
        let j = choose|j: int| 0 <= j < prev.len() && prev[j] == c;
        assert((prev + last)[j] == c);
    }
}

/// One item's rules stand, in order, at some place among the rules of all
/// items.
proof fn lemma_each_embed(items: Seq<Seq<char>>, f: spec_fn(Seq<char>) -> Seq<CmdSpec>, k: int) -> (off: int)
    requires
        0 <= k < items.len(),
    ensures
        0 <= off,
        off + f(items[k]).len() <= each(items, f).len(),
        forall|q: int| 0 <= q < f(items[k]).len() ==> #[trigger] each(items, f)[off + q] == f(items[k])[q],
    decreases items.len(),
{
    let prev = each(items.drop_last(), f);
    let last = f(items.last());
    assert(each(items, f) == prev + last);
    if k == items.len() - 1 {
        prev.len() as int
    } else {
        assert(items.drop_last()[k] == items[k]);
        let o = lemma_each_embed(items.drop_last(), f, k);
        assert forall|q: int| 0 <= q < f(items[k]).len() implies #[trigger] each(items, f)[o + q] == f(items[k])[q] by {
            assert((prev + last)[o + q] == prev[o + q]);
        }
        o
    }
}

/// The mangle facts of a part hold of any plan around it.
proof fn lemma_marks_lift(pre: Seq<CmdSpec>, mg: Seq<CmdSpec>, post: Seq<CmdSpec>, bin: Seq<char>, config: GatewayConfig, iface: Seq<char>)
    requires
        mangle_marks_hold(mg, bin, config, iface),
    ensures
        mangle_marks_hold(pre + mg + post, bin, config, iface),
{
    let p = pre + mg + post;
    assert forall|c: CmdSpec| mg.contains(c) implies p.contains(c) by {
        lemma_concat_has(pre, mg, c);
        lemma_concat_has(pre + mg, post, c);
    }
    if config.proxy_mode == ProxyMode::MacAllowlist {
        assert forall|mac: Seq<char>| #[trigger] config.mac_allow_list@.contains(mac) implies exists|i: int, j: int|
            0 <= i < j < p.len() && p[i] == return_mac_cmd(bin, iface, mac) && p[j] == mark_iface_cmd(bin, iface) by {
            let (i, j) = choose|i: int, j: int|
                0 <= i < j < mg.len() && mg[i] == return_mac_cmd(bin, iface, mac) && mg[j] == mark_iface_cmd(bin, iface);
            assert(p[pre.len() + i] == mg[i]);
            assert(p[pre.len() + j] == mg[j]);
        }
    }
}

proof fn lemma_concat_has(a: Seq<CmdSpec>, b: Seq<CmdSpec>, c: CmdSpec)
    requires
        a.contains(c) || b.contains(c),
    ensures
        (a + b).contains(c),
{
    if a.contains(c) {
        let j = choose|j: int| 0 <= j < a.len() && a[j] == c;
        assert((a + b)[j] == c);
    } else {
        let j = choose|j: int| 0 <= j < b.len() && b[j] == c;
        assert((a + b)[a.len() + j] == c);
    }
}

/// A member of the managed set is listed.
proof fn lemma_managed_listed(config: GatewayConfig, iface: Seq<char>) -> (k: int)
    requires
        config.managed_ifaces@.contains(iface),
    ensures
        0 <= k < sorted_listing(config.managed_ifaces@).len(),
        sorted_listing(config.managed_ifaces@)[k] == iface,
{
    config.managed_ifaces.lemma_view_finite();
    lemma_sorted_listing_lists(config.managed_ifaces@);
    let m = sorted_listing(config.managed_ifaces@);
    assert(m.to_set().contains(iface));
    choose|k: int| 0 <= k < m.len() && m[k] == iface
}

/// The mangle command that sends unmarked-list clients of `iface` around
/// the VPN: `MARK --set-mark 0x80000001`.
pub open spec fn mark_iface_cmd(bin: Seq<char>, iface: Seq<char>) -> CmdSpec {
    CmdSpec {
        op: FwOp::Run,
        bin,
        args: seq![
            "-w"@, "2"@, "-t"@, "mangle"@, "-A"@, "VSP_PRE"@, "-i"@, iface, "-j"@, "MARK"@, "--set-mark"@,
            "0x80000001"@,
        ],
    }
}

/// The mangle command that lets `mac` on `iface` leave the chain unmarked.
pub open spec fn return_mac_cmd(bin: Seq<char>, iface: Seq<char>, mac: Seq<char>) -> CmdSpec {
    CmdSpec {
        op: FwOp::Run,
        bin,
        args: seq![
            "-w"@, "2"@, "-t"@, "mangle"@, "-A"@, "VSP_PRE"@, "-i"@, iface, "-m"@, "mac"@, "--mac-source"@, mac,
            "-j"@, "RETURN"@,
        ],
    }
}

/// The mangle command that marks `mac` on `iface` for the bypass.
pub open spec fn mark_mac_cmd(bin: Seq<char>, iface: Seq<char>, mac: Seq<char>) -> CmdSpec {
    CmdSpec {
        op: FwOp::Run,
        bin,
        args: seq![
            "-w"@, "2"@, "-t"@, "mangle"@, "-A"@, "VSP_PRE"@, "-i"@, iface, "-m"@, "mac"@, "--mac-source"@, mac,
            "-j"@, "MARK"@, "--set-mark"@, "0x80000001"@,
        ],
    }
}

/// What the mangle rules hold for a managed interface: in allowlist mode, a
/// MARK for the interface, preceded by a RETURN for each allowed MAC (so
/// allowed clients leave the chain unmarked); in blocklist mode, a MARK for
/// each blocked MAC.
pub open spec fn mangle_marks_hold(plan: Seq<CmdSpec>, bin: Seq<char>, config: GatewayConfig, iface: Seq<char>) -> bool {
    &&& config.proxy_mode == ProxyMode::MacAllowlist ==> plan.contains(mark_iface_cmd(bin, iface))
    &&& config.proxy_mode == ProxyMode::MacAllowlist ==> forall|mac: Seq<char>|
        #[trigger] config.mac_allow_list@.contains(mac) ==> exists|i: int, j: int|
            0 <= i < j < plan.len() && plan[i] == return_mac_cmd(bin, iface, mac) && plan[j] == mark_iface_cmd(
                bin,
                iface,
            )
    &&& config.proxy_mode == ProxyMode::MacBlocklist ==> forall|mac: Seq<char>|
        #[trigger] config.mac_block_list@.contains(mac) ==> plan.contains(mark_mac_cmd(bin, iface, mac))
}

proof fn lemma_mangle_marks(bin: Seq<char>, config: GatewayConfig, iface: Seq<char>)
    requires
        config.managed_ifaces@.contains(iface),
    ensures
        mangle_marks_hold(mangle_spec(bin, config, sorted_listing(config.managed_ifaces@)), bin, config, iface),
{
    let m = sorted_listing(config.managed_ifaces@);
    let k = lemma_managed_listed(config, iface);
    let plan = mangle_spec(bin, config, m);
    if config.proxy_mode == ProxyMode::MacAllowlist {
        let macs = config.mac_allow_list.elems();
        let f = allow_iface(bin, macs);
        let one = f(iface);
        assert(one == each(macs, allow_return(bin, iface)) + seq![iface_mark(bin, iface)]);
        assert(iface_mark(bin, iface) == mark_iface_cmd(bin, iface)) by {
            assert(iface_mark(bin, iface).args =~= mark_iface_cmd(bin, iface).args);
        }
        assert(seq![iface_mark(bin, iface)][0] == mark_iface_cmd(bin, iface));
        lemma_concat_has(each(macs, allow_return(bin, iface)), seq![iface_mark(bin, iface)], mark_iface_cmd(bin, iface));
        lemma_each_has(m, f, k, mark_iface_cmd(bin, iface));
        config.mac_allow_list.lemma_elems_members();
        let off = lemma_each_embed(m, f, k);
        let em = each(macs, allow_return(bin, iface));
        assert forall|mac: Seq<char>| #[trigger] config.mac_allow_list@.contains(mac) implies exists|i: int, j: int|
            0 <= i < j < plan.len() && plan[i] == return_mac_cmd(bin, iface, mac) && plan[j] == mark_iface_cmd(
                bin,
                iface,
            ) by {
            let jm = choose|jm: int| 0 <= jm < macs.len() && macs[jm] == mac;
            let g = allow_return(bin, iface);
            let c = return_mac_cmd(bin, iface, mac);
            assert(g(macs[jm])[0] == c) by {
                assert(g(macs[jm])[0].args =~= c.args);
            }
            let off2 = lemma_each_embed(macs, g, jm);
            assert(g(macs[jm]).len() == 1);
            assert(each(macs, g)[off2 + 0] == g(macs[jm])[0]);
            assert(em[off2] == c);
            assert(one[off2] == c);
            assert(one[em.len() as int] == mark_iface_cmd(bin, iface));
            assert(plan[off + off2] == one[off2]);
            assert(plan[off + em.len()] == one[em.len() as int]);
        }
    }
    if config.proxy_mode == ProxyMode::MacBlocklist {
        let macs = config.mac_block_list.elems();
        let f = block_iface(bin, macs);
        config.mac_block_list.lemma_elems_members();
        assert forall|mac: Seq<char>| #[trigger] config.mac_block_list@.contains(mac) implies plan.contains(
            mark_mac_cmd(bin, iface, mac),
        ) by {
            let j = choose|j: int| 0 <= j < macs.len() && macs[j] == mac;
            let g = block_mark(bin, iface);
            let c = mark_mac_cmd(bin, iface, mac);
            assert(g(macs[j])[0] == c) by {
                assert(g(macs[j])[0].args =~= c.args);
            }
            lemma_each_has(macs, g, j, c);
            lemma_each_has(m, f, k, c);
        }
    }
}

/// With IPv6 on, the IPv6 chains carry the mode's mangle marks on every
/// managed interface, as the IPv4 chains do: in allowlist mode each allowed
/// MAC returns unmarked and the rest of the interface is marked for the
/// bypass; in blocklist mode each blocked MAC is marked.
pub proof fn law_ipv6_mangle_marks(fw: FirewallManager, config: GatewayConfig, tun: Seq<char>, iface: Seq<char>)
    requires
        fw.ip6t_bin is Some,
        fw.kernel_ip6tables,
        config.managed_ifaces@.contains(iface),
    ensures
        mangle_marks_hold(fw.ipv6_rules_spec(config, tun, true), fw.ip6t_bin->0@, config, iface),
{
    let b = fw.ip6t_bin->0@;
    let m = sorted_listing(config.managed_ifaces@);
    lemma_mangle_marks(b, config, iface);
    let pre = fw.hooks_spec() + flush_proxy_chains_spec(b) + (tcpmss_and_reply_spec(b, tun) + fwd_accept_spec(
        b,
        config.proxy_mode,
        m,
        tun,
        private_ranges_v6(),
    ));
    let mg = mangle_spec(b, config, m);
    assert(fw.ipv6_rules_spec(config, tun, true) =~= pre + mg + Seq::<CmdSpec>::empty());
    lemma_marks_lift(pre, mg, Seq::<CmdSpec>::empty(), b, config, iface);
}

/// The IPv4 chains carry the mode's mangle marks on every managed interface.
pub proof fn law_ipv4_mangle_marks(fw: FirewallManager, config: GatewayConfig, tun: Seq<char>, iface: Seq<char>)
    requires
        fw.ipt_bin is Some,
        fw.kernel_iptables,
        config.managed_ifaces@.contains(iface),
    ensures
        mangle_marks_hold(fw.proxy_rules_spec(config, tun), fw.ipt_bin->0@, config, iface),
{
    let b = fw.ipt_bin->0@;
    let m = sorted_listing(config.managed_ifaces@);
    lemma_mangle_marks(b, config, iface);
    let pre = fw.hooks_spec() + flush_proxy_chains_spec(b) + tcpmss_and_reply_spec(b, tun) + fwd_accept_spec(
        b,
        config.proxy_mode,
        m,
        tun,
        private_ranges_v4(),
    );
    let mg = mangle_spec(b, config, m);
    let post = dns_nat_spec(b, config, m, tun);
    assert(fw.proxy_rules_spec(config, tun) == pre + mg + post);
    lemma_marks_lift(pre, mg, post, b, config, iface);
}

/// The DNS redirect of a managed interface: its client UDP 53 traffic that
/// does not carry the bypass mark goes to `resolver` port 53.
pub open spec fn dns_dnat_cmd(bin: Seq<char>, iface: Seq<char>, resolver: Seq<char>) -> CmdSpec {
    CmdSpec {
        op: FwOp::Run,
        bin,
        args: seq![
            "-w"@, "2"@, "-t"@, "nat"@, "-A"@, "VSP_NAT"@, "-i"@, iface, "-m"@, "mark"@, "!"@, "--mark"@,
            "0x80000001/0xffffffff"@, "-p"@, "udp"@, "--dport"@, "53"@, "-j"@, "DNAT"@, "--to"@, resolver + ":53"@,
        ],
    }
}

/// With DNS redirection on and a per-device mode (allowlist or blocklist),
/// every managed interface's client DNS is redirected to the resolver.
pub proof fn law_dns_redirect_every_managed_iface(
    fw: FirewallManager,
    config: GatewayConfig,
    tun: Seq<char>,
    iface: Seq<char>,
    resolver: Seq<char>,
)
    requires
        fw.ipt_bin is Some,
        fw.kernel_iptables,
        resolve_dns_v4_spec(config) == Some(resolver),
        config.proxy_mode != ProxyMode::Global,
        config.managed_ifaces@.contains(iface),
    ensures
        fw.proxy_rules_spec(config, tun).contains(dns_dnat_cmd(fw.ipt_bin->0@, iface, resolver)),
{
    let b = fw.ipt_bin->0@;
    let m = sorted_listing(config.managed_ifaces@);
    let k = lemma_managed_listed(config, iface);
    let target = resolver + ":53"@;
    let f = dnat_iface(b, target);
    let c = dns_dnat_cmd(b, iface, resolver);
    assert(f(iface)[0] == c) by {
        assert(f(iface)[0].args =~= c.args);
    }
    lemma_each_has(m, f, k, c);
    let dn = dns_nat_spec(b, config, m, tun);
    assert(dn == each(m, f));
    let pre = fw.hooks_spec() + flush_proxy_chains_spec(b) + tcpmss_and_reply_spec(b, tun) + fwd_accept_spec(
        b,
        config.proxy_mode,
        m,
        tun,
        private_ranges_v4(),
    ) + mangle_spec(b, config, m);
    assert(fw.proxy_rules_spec(config, tun) == pre + dn);
    lemma_concat_has(pre, dn, c);
}

/// The DNS redirect of a private source range in global mode: client UDP 53
/// traffic from the range that does not come in on the tunnel and does not
/// carry the bypass mark goes to `resolver` port 53.
pub open spec fn dns_dnat_range_cmd(bin: Seq<char>, tun: Seq<char>, range: Seq<char>, resolver: Seq<char>) -> CmdSpec {
    CmdSpec {
        op: FwOp::Run,
        bin,
        args: seq![
            "-w"@, "2"@, "-t"@, "nat"@, "-A"@, "VSP_NAT"@, "!"@, "-i"@, tun, "-m"@, "mark"@, "!"@, "--mark"@,
            "0x80000001/0xffffffff"@, "-s"@, range, "-p"@, "udp"@, "--dport"@, "53"@, "-j"@, "DNAT"@, "--to"@,
            resolver + ":53"@,
        ],
    }
}

/// With DNS redirection on in global mode, client DNS from each private
/// IPv4 range (10.0.0.0/8, 172.16.0.0/12, 192.168.0.0/16) is redirected to
/// the resolver.
pub proof fn law_dns_redirect_private_ranges(fw: FirewallManager, config: GatewayConfig, tun: Seq<char>, resolver: Seq<char>)
    requires
        fw.ipt_bin is Some,
        fw.kernel_iptables,
        resolve_dns_v4_spec(config) == Some(resolver),
        config.proxy_mode == ProxyMode::Global,
    ensures
        fw.proxy_rules_spec(config, tun).contains(dns_dnat_range_cmd(fw.ipt_bin->0@, tun, "10.0.0.0/8"@, resolver)),
        fw.proxy_rules_spec(config, tun).contains(dns_dnat_range_cmd(fw.ipt_bin->0@, tun, "172.16.0.0/12"@, resolver)),
        fw.proxy_rules_spec(config, tun).contains(dns_dnat_range_cmd(fw.ipt_bin->0@, tun, "192.168.0.0/16"@, resolver)),
{
    let b = fw.ipt_bin->0@;
    let m = sorted_listing(config.managed_ifaces@);
    let target = resolver + ":53"@;
    let f = dnat_range(b, tun, target);
    let rs = private_ranges_v4();
    let dn = dns_nat_spec(b, config, m, tun);
    assert(dn == each(rs, f));
    let pre = fw.hooks_spec() + flush_proxy_chains_spec(b) + tcpmss_and_reply_spec(b, tun) + fwd_accept_spec(
        b,
        config.proxy_mode,
        m,
        tun,
        private_ranges_v4(),
    ) + mangle_spec(b, config, m);
    assert(fw.proxy_rules_spec(config, tun) == pre + dn);
    assert forall|k: int| 0 <= k < 3 implies (pre + dn).contains(#[trigger] dns_dnat_range_cmd(b, tun, rs[k], resolver)) by {
        let c = dns_dnat_range_cmd(b, tun, rs[k], resolver);
        assert(f(rs[k])[0] == c) by {
            assert(f(rs[k])[0].args =~= c.args);
        }
        lemma_each_has(rs, f, k, c);
        lemma_concat_has(pre, dn, c);
    }
    assert(rs[0] == "10.0.0.0/8"@ && rs[1] == "172.16.0.0/12"@ && rs[2] == "192.168.0.0/16"@);
}

} // verus!
