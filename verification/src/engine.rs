//! The reconciler's decisions: what the gateway should look like for a
//! configuration and an environment, and how the installed session moves
//! towards it. The daemon performs the kernel work between the steps.
use vstd::prelude::*;
use crate::types::{DaemonStatus, GatewayConfig, RunningState};
use crate::bytes::ByteOrder;
use crate::routing::{install_len_spec, lemma_install_len, NetlinkRuleManager, AF_INET, AF_INET6};
use crate::strset::{sorted_listing, texts};

verus! {

/// Table used when Android has not named a table for the tunnel.
pub const DEFAULT_VPN_TABLE: u32 = 1038;
/// How many more times the table lookup is tried after a miss.
pub const TABLE_LOOKUP_RETRIES: u32 = 3;
/// Pause before each retried table lookup, in milliseconds.
pub const TABLE_LOOKUP_DELAY_MS: u64 = 150;

/// The installed kernel state of the module.
pub struct ModuleSession {
    pub phase: RunningState,
    /// Fingerprint of the last Active install (0 = nothing installed).
    pub installed_sig: u64,
    pub tun: Option<String>,
    pub table: Option<u32>,
    pub v4_on: bool,
    pub v6_on: bool,
}

/// A session, as plain values.
pub ghost struct SessionView {
    pub phase: RunningState,
    pub installed_sig: u64,
    pub tun: Option<Seq<char>>,
    pub table: Option<u32>,
    pub v4_on: bool,
    pub v6_on: bool,
}

pub open spec fn ostr(o: Option<String>) -> Option<Seq<char>> {
    match o {
        Some(s) => Some(s@),
        None => None,
    }
}

impl ModuleSession {
    pub open spec fn view(&self) -> SessionView {
        SessionView {
            phase: self.phase,
            installed_sig: self.installed_sig,
            tun: ostr(self.tun),
            table: self.table,
            v4_on: self.v4_on,
            v6_on: self.v6_on,
        }
    }

    /// Nothing installed.
    pub fn idle() -> (r: Self)
        ensures
            r.view() == idle_view(),
    {
        ModuleSession {
            phase: RunningState::Standby,
            installed_sig: 0,
            tun: None,
            table: None,
            v4_on: false,
            v6_on: false,
        }
    }

    /// Whether rules of an Active install are in place.
    pub fn has_rules(&self) -> (r: bool)
        ensures
            r == has_rules_spec(self.view()),
    {
        self.installed_sig != 0
    }
}

pub open spec fn idle_view() -> SessionView {
    SessionView {
        phase: RunningState::Standby,
        installed_sig: 0,
        tun: None,
        table: None,
        v4_on: false,
        v6_on: false,
    }
}

pub open spec fn has_rules_spec(s: SessionView) -> bool {
    s.installed_sig != 0
}

/// Sessions the reconciler can produce: outside Active nothing is recorded;
/// an Active session names its tunnel and table.
pub open spec fn session_wf(s: SessionView) -> bool {
    if s.phase == RunningState::Active {
        s.tun is Some && s.table is Some
    } else {
        s.installed_sig == 0 && s.tun is None && s.table is None && !s.v4_on && !s.v6_on
    }
}

/// The intent computed from the configuration and the environment.
pub struct Desired {
    pub phase: RunningState,
    /// Fingerprint when Active; 0 otherwise.
    pub sig: u64,
    pub tun: Option<String>,
    pub table: Option<u32>,
    pub enable_v4: bool,
    pub enable_v6: bool,
    pub config: GatewayConfig,
}

/// A desired state, as plain values.
pub ghost struct DesiredView {
    pub phase: RunningState,
    pub sig: u64,
    pub tun: Option<Seq<char>>,
    pub table: Option<u32>,
    pub enable_v4: bool,
    pub enable_v6: bool,
}

impl Desired {
    pub open spec fn view(&self) -> DesiredView {
        DesiredView {
            phase: self.phase,
            sig: self.sig,
            tun: ostr(self.tun),
            table: self.table,
            enable_v4: self.enable_v4,
            enable_v6: self.enable_v6,
        }
    }
}

/// Intents that `desired_from` produces.
pub open spec fn desired_wf(d: DesiredView) -> bool {
    &&& d.phase != RunningState::Error
    &&& d.phase == RunningState::Active ==> d.tun is Some && d.table is Some
    &&& d.phase != RunningState::Active ==> d.sig == 0 && d.tun is None && d.table is None
}

/// Whether a VPN tunnel has to be looked for at all.
pub fn needs_vpn_probe(config: &GatewayConfig) -> (r: bool)
    ensures
        r == (config.enable_ipv4 || config.enable_ipv6),
{
    config.enable_ipv4 || config.enable_ipv6
}

/// Whether the table lookup is tried again after `done` retries.
pub fn table_retry_due(done: u32, found: bool) -> (r: bool)
    ensures
        r == (!found && done < TABLE_LOOKUP_RETRIES),
{
    !found && done < TABLE_LOOKUP_RETRIES
}

/// The intent for `config`, given the active tunnel (if any) and the table
/// that Android names for it (if any, after the lookups).
pub fn desired_from(config: GatewayConfig, tun: Option<String>, table: Option<u32>) -> (r: Desired)
    ensures
        desired_wf(r.view()),
        r.config == config,
        !config.enable_ipv4 && !config.enable_ipv6 ==> r.view() == (DesiredView {
            phase: RunningState::Standby,
            sig: 0,
            tun: None,
            table: None,
            enable_v4: false,
            enable_v6: false,
        }),
        (config.enable_ipv4 || config.enable_ipv6) && tun is None ==> r.view() == (DesiredView {
            phase: RunningState::WaitingVpn,
            sig: 0,
            tun: None,
            table: None,
            enable_v4: config.enable_ipv4,
            enable_v6: config.enable_ipv6,
        }),
        (config.enable_ipv4 || config.enable_ipv6) && tun is Some ==> {
            let t = match table {
                Some(t) => t,
                None => DEFAULT_VPN_TABLE,
            };
            r.view() == (DesiredView {
                phase: RunningState::Active,
                sig: config.signature_spec(ostr(tun), Some(t)),
                tun: ostr(tun),
                table: Some(t),
                enable_v4: config.enable_ipv4,
                enable_v6: config.enable_ipv6,
            })
        },
{
    if !config.enable_ipv4 && !config.enable_ipv6 {
        return Desired {
            phase: RunningState::Standby,
            sig: 0,
            tun: None,
            table: None,
            enable_v4: false,
            enable_v6: false,
            config,
        };
    }
    match tun {
        None => {
            let v4 = config.enable_ipv4;
            let v6 = config.enable_ipv6;
            Desired {
                phase: RunningState::WaitingVpn,
                sig: 0,
                tun: None,
                table: None,
                enable_v4: v4,
                enable_v6: v6,
                config,
            }
        },
        Some(t) => {
            let tbl = match table {
                Some(x) => x,
                None => DEFAULT_VPN_TABLE,
            };
            let sig = config.signature(Some(t.as_str()), Some(tbl));
            let v4 = config.enable_ipv4;
            let v6 = config.enable_ipv6;
            Desired {
                phase: RunningState::Active,
                sig,
                tun: Some(t),
                table: Some(tbl),
                enable_v4: v4,
                enable_v6: v6,
                config,
            }
        },
    }
}

/// What a reconcile pass does.
#[derive(Clone, Copy, PartialEq, Eq, Debug, Structural)]
pub enum ReconcilePlan {
    /// Same Active install: only re-pin the forward hooks.
    RepinHooks,
    /// Already in the desired passive phase with nothing installed.
    Noop,
    /// Leave the session first (flushing its rules) when `leave_first`, then enter.
    Transition { leave_first: bool },
}

pub open spec fn plan_reconcile_spec(s: SessionView, d: DesiredView) -> ReconcilePlan {
    if d.phase == RunningState::Active && d.sig == s.installed_sig && s.phase == RunningState::Active {
        ReconcilePlan::RepinHooks
    } else if d.phase != RunningState::Active && s.phase == d.phase && !has_rules_spec(s) {
        ReconcilePlan::Noop
    } else {
        ReconcilePlan::Transition {
            leave_first: has_rules_spec(s) || (s.phase == RunningState::Active && d.phase
                != RunningState::Active),
        }
    }
}

/// Decides a reconcile pass.
pub fn plan_reconcile(session: &ModuleSession, desired: &Desired) -> (r: ReconcilePlan)
    ensures
        r == plan_reconcile_spec(session.view(), desired.view()),
{
    if desired.phase == RunningState::Active && desired.sig == session.installed_sig
        && session.phase == RunningState::Active {
        return ReconcilePlan::RepinHooks;
    }
    if desired.phase != RunningState::Active && session.phase == desired.phase
        && !session.has_rules() {
        return ReconcilePlan::Noop;
    }
    let need_leave = session.has_rules() || (session.phase == RunningState::Active
        && desired.phase != RunningState::Active);
    ReconcilePlan::Transition { leave_first: need_leave }
}

pub open spec fn leave_spec(s: SessionView) -> SessionView {
    if !has_rules_spec(s) && s.phase != RunningState::Active {
        SessionView {
            phase: RunningState::Standby,
            v4_on: false,
            v6_on: false,
            tun: None,
            table: None,
            ..s
        }
    } else {
        idle_view()
    }
}

/// Whether leaving `s` has rules to flush.
pub open spec fn leave_flushes(s: SessionView) -> bool {
    has_rules_spec(s) || s.phase == RunningState::Active
}

/// Leaves the session; tells whether the installed rules must be flushed
/// (all managed FIB rules of both families and the proxy chains).
pub fn leave(session: &mut ModuleSession) -> (flush: bool)
    ensures
        final(session).view() == leave_spec(old(session).view()),
        flush == leave_flushes(old(session).view()),
{
    if !session.has_rules() && session.phase != RunningState::Active {
        session.phase = RunningState::Standby;
        session.v4_on = false;
        session.v6_on = false;
        session.tun = None;
        session.table = None;
        return false;
    }
    *session = ModuleSession::idle();
    true
}

/// Something the daemon announces to subscribed clients.
pub enum DaemonEvent {
    /// `state_changed` to standby.
    StateStandby,
    /// `vpn_changed` with status down.
    VpnDown,
    /// `vpn_changed` with status up.
    VpnUp { iface: String, table_id: u32 },
    /// `reconcile_finished` after an Active install, with the number of FIB
    /// rules installed.
    ReconcileFinished { active_tun: String, rules_count: u64 },
    /// `device_connected`.
    DeviceConnected { ip: String, mac: String, iface: String },
    /// `device_disconnected`.
    DeviceDisconnected { mac: String },
    /// `device_policy_changed`.
    DevicePolicyChanged { mac: String, policy: String },
}

/// Entering a phase. For Active, `v4_ok` and `v6_ok` tell whether the FIB
/// rules of the family went in.
pub open spec fn enter_spec(s: SessionView, d: DesiredView, v4_ok: bool, v6_ok: bool) -> SessionView {
    match d.phase {
        RunningState::Active => SessionView {
            phase: RunningState::Active,
            installed_sig: d.sig,
            tun: d.tun,
            table: d.table,
            v4_on: v4_ok,
            v6_on: v6_ok,
        },
        _ => SessionView { phase: d.phase, ..s },
    }
}

/// Enters a passive phase (Standby, WaitingVpn or Error); returns the event
/// to announce, if any.
pub fn enter_passive(session: &mut ModuleSession, desired: &Desired) -> (ev: Option<DaemonEvent>)
    requires
        desired.phase != RunningState::Active,
    ensures
        final(session).view() == enter_spec(old(session).view(), desired.view(), false, false),
        desired.phase == RunningState::Standby ==> ev matches Some(DaemonEvent::StateStandby),
        desired.phase == RunningState::WaitingVpn ==> ev matches Some(DaemonEvent::VpnDown),
        desired.phase == RunningState::Error ==> ev is None,
{
    match desired.phase {
        RunningState::Standby => {
            session.phase = RunningState::Standby;
            Some(DaemonEvent::StateStandby)
        },
        RunningState::WaitingVpn => {
            session.phase = RunningState::WaitingVpn;
            Some(DaemonEvent::VpnDown)
        },
        _ => {
            session.phase = RunningState::Error;
            None
        },
    }
}

/// One piece of the kernel work of entering Active.
#[derive(Clone, Copy, PartialEq, Eq, Debug, Structural)]
pub enum ActiveStep {
    /// Turn on forwarding for the enabled families.
    Forwarding { v4: bool, v6: bool },
    /// Install the IPv4 FIB rules.
    InstallV4,
    /// Install the IPv6 FIB rules.
    InstallV6,
    /// Set up the IPv4 proxy chains.
    ProxyV4,
    /// Set up the IPv6 chains: accept while IPv6 is on, reject leaks while
    /// it is off.
    ProxyV6 { enabled: bool },
}

/// The kernel work of entering Active, in order: forwarding; the FIB rules
/// of each enabled family, IPv4 first; the IPv4 proxy chains when IPv4 is
/// on; the IPv6 chains always.
pub open spec fn active_steps_spec(v4: bool, v6: bool) -> Seq<ActiveStep> {
    seq![ActiveStep::Forwarding { v4, v6 }] + (if v4 {
        seq![ActiveStep::InstallV4]
    } else {
        seq![]
    }) + (if v6 {
        seq![ActiveStep::InstallV6]
    } else {
        seq![]
    }) + (if v4 {
        seq![ActiveStep::ProxyV4]
    } else {
        seq![]
    }) + seq![ActiveStep::ProxyV6 { enabled: v6 }]
}

/// The kernel work of entering the Active state `desired`, in the order the
/// daemon performs it.
pub fn active_entry_steps(desired: &Desired) -> (r: Vec<ActiveStep>)
    ensures
        r@ == active_steps_spec(desired.enable_v4, desired.enable_v6),
{
    let v4 = desired.enable_v4;
    let v6 = desired.enable_v6;
    let mut r: Vec<ActiveStep> = Vec::new();
    r.push(ActiveStep::Forwarding { v4, v6 });
    if v4 {
        r.push(ActiveStep::InstallV4);
    }
    if v6 {
        r.push(ActiveStep::InstallV6);
    }
    if v4 {
        r.push(ActiveStep::ProxyV4);
    }
    r.push(ActiveStep::ProxyV6 { enabled: v6 });
    proof {
        assert(r@ =~= active_steps_spec(v4, v6));
    }
    r
}

/// The FIB rules that an Active entry installed: the whole install of each
/// family that went in (the managed interfaces in increasing order).
pub open spec fn installed_rules_spec(tun: Seq<char>, config: GatewayConfig, v4_ok: bool, v6_ok: bool) -> int {
    let managed = sorted_listing(config.managed_ifaces@);
    (if v4_ok {
        install_len_spec(AF_INET, tun, config.proxy_mode, managed) as int
    } else {
        0
    }) + (if v6_ok {
        install_len_spec(AF_INET6, tun, config.proxy_mode, managed) as int
    } else {
        0
    })
}

/// Records an Active install once the kernel work is done; returns the
/// `vpn_changed` (up) and `reconcile_finished` events. A family counts as
/// installed only where its install could be built, which bounds the
/// number of managed interfaces.
pub fn commit_active(session: &mut ModuleSession, desired: &Desired, v4_ok: bool, v6_ok: bool) -> (evs: Vec<DaemonEvent>)
    requires
        desired.phase == RunningState::Active,
        desired.tun is Some,
        desired.table is Some,
        v4_ok || v6_ok ==> desired.config.managed_ifaces@.len() * 10 + 5030 <= u32::MAX,
    ensures
        final(session).view() == enter_spec(old(session).view(), desired.view(), v4_ok, v6_ok),
        evs@.len() == 2,
        evs@[0] matches DaemonEvent::VpnUp { iface, table_id } && Some(iface@) == ostr(desired.tun)
            && Some(table_id) == desired.table,
        evs@[1] matches DaemonEvent::ReconcileFinished { active_tun, rules_count } && Some(active_tun@) == ostr(
            desired.tun,
        ) && rules_count == installed_rules_spec(active_tun@, desired.config, v4_ok, v6_ok),
{
    let tun = match &desired.tun {
        Some(t) => t.clone(),
        None => String::new(),
    };
    let table = match desired.table {
        Some(t) => t,
        None => 0,
    };
    let mut rules_count: u64 = 0;
    if v4_ok || v6_ok {
        let managed = desired.config.managed_ifaces_sorted();
        let mode = desired.config.proxy_mode;
        proof {
            lemma_install_len(ByteOrder::Little, AF_INET, tun@, 0, mode, texts(managed@));
            lemma_install_len(ByteOrder::Little, AF_INET6, tun@, 0, mode, texts(managed@));
        }
        if v4_ok {
            rules_count = NetlinkRuleManager::install_len(AF_INET, tun.as_str(), mode, &managed) as u64;
        }
        if v6_ok {
            rules_count = rules_count + NetlinkRuleManager::install_len(AF_INET6, tun.as_str(), mode, &managed) as u64;
        }
    }
    session.phase = RunningState::Active;
    session.installed_sig = desired.sig;
    session.tun = Some(tun.clone());
    session.table = Some(table);
    session.v4_on = v4_ok;
    session.v6_on = v6_ok;
    let mut evs: Vec<DaemonEvent> = Vec::new();
    evs.push(DaemonEvent::VpnUp { iface: tun.clone(), table_id: table });
    evs.push(DaemonEvent::ReconcileFinished { active_tun: tun, rules_count });
    evs
}

/// The session after a whole reconcile pass towards `d`, where `v4_ok` and
/// `v6_ok` are the outcomes of the FIB rule installs of an Active entry.
pub open spec fn reconcile_spec(s: SessionView, d: DesiredView, v4_ok: bool, v6_ok: bool) -> SessionView {
    match plan_reconcile_spec(s, d) {
        ReconcilePlan::RepinHooks => s,
        ReconcilePlan::Noop => s,
        ReconcilePlan::Transition { leave_first } => {
            let s1 = if leave_first {
                leave_spec(s)
            } else {
                s
            };
            enter_spec(s1, d, v4_ok, v6_ok)
        },
    }
}

/// A reconcile pass keeps sessions well formed.
pub proof fn law_reconcile_keeps_wf(s: SessionView, d: DesiredView, v4_ok: bool, v6_ok: bool)
    requires
        session_wf(s),
        desired_wf(d),
    ensures
        session_wf(reconcile_spec(s, d, v4_ok, v6_ok)),
{
}

/// After a pass the session is in the desired phase; an Active session holds
/// the desired fingerprint and a passive one holds none.
pub proof fn law_reconcile_reaches_desired(s: SessionView, d: DesiredView, v4_ok: bool, v6_ok: bool)
    requires
        session_wf(s),
        desired_wf(d),
    ensures
        reconcile_spec(s, d, v4_ok, v6_ok).phase == d.phase,
        reconcile_spec(s, d, v4_ok, v6_ok).installed_sig == d.sig,
        d.phase != RunningState::Active ==> reconcile_spec(s, d, v4_ok, v6_ok) == (SessionView {
            phase: d.phase,
            ..idle_view()
        }),
{
}

/// A second pass towards the same intent changes nothing: at most the hooks
/// are re-pinned.
pub proof fn law_reconcile_idempotent(s: SessionView, d: DesiredView, v4_ok: bool, v6_ok: bool)
    requires
        session_wf(s),
        desired_wf(d),
    ensures
        ({
            let s1 = reconcile_spec(s, d, v4_ok, v6_ok);
            &&& plan_reconcile_spec(s1, d) == ReconcilePlan::RepinHooks
                || plan_reconcile_spec(s1, d) == ReconcilePlan::Noop
            &&& d.phase == RunningState::Active ==> plan_reconcile_spec(s1, d)
                == ReconcilePlan::RepinHooks
        }),
{
}

/// Leaving always ends idle, and rules are flushed exactly when some may be installed.
pub proof fn law_leave_ends_idle(s: SessionView)
    requires
        session_wf(s),
    ensures
        leave_spec(s) == idle_view(),
        !leave_flushes(s) ==> s.installed_sig == 0 && s.phase != RunningState::Active,
{
}

/// The status report of the current session.
pub fn status_of(
    session: &ModuleSession,
    hotspot_interfaces: Vec<String>,
    client_count: usize,
    uptime_secs: u64,
    version: &str,
) -> (r: DaemonStatus)
    ensures
        r.state == session.phase,
        ostr(r.tun_interface) == ostr(session.tun),
        r.table_id == session.table,
        r.hotspot_interfaces@ == hotspot_interfaces@,
        r.ipv4_active == session.v4_on,
        r.ipv6_active == session.v6_on,
        r.client_count == client_count,
        r.uptime_secs == uptime_secs,
        r.version@ == version@,
{
    let tun = match &session.tun {
        Some(t) => Some(t.clone()),
        None => None,
    };
    DaemonStatus {
        state: session.phase,
        tun_interface: tun,
        table_id: session.table,
        hotspot_interfaces,
        ipv4_active: session.v4_on,
        ipv6_active: session.v6_on,
        client_count,
        uptime_secs,
        version: String::from_str(version),
    }
}

/// What a `reconcile_now` request reports: whether the proxy rules are in
/// place, and the tunnel and table they use.
pub struct ReconcileReport {
    pub rules_applied: bool,
    pub tun: Option<String>,
    pub table: Option<u32>,
}

/// The report of the session after a reconcile pass.
pub fn reconcile_report(session: &ModuleSession) -> (r: ReconcileReport)
    ensures
        r.rules_applied == (session.phase == RunningState::Active),
        ostr(r.tun) == ostr(session.tun),
        r.table == session.table,
{
    let tun = match &session.tun {
        Some(t) => Some(t.clone()),
        None => None,
    };
    ReconcileReport { rules_applied: session.phase == RunningState::Active, tun, table: session.table }
}

} // verus!
