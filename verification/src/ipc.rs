//! Decisions of the control protocol (newline-delimited JSON over the
//! abstract socket `@vpn-share-proxy.sock`): which method a request names,
//! how its parameters are read, and how a device policy edits the config.
use vstd::prelude::*;
use crate::text::{str_uppercase, text_contains, text_eq, to_upper};
use crate::types::{GatewayConfig, NetIfaceInfo, ProxyMode};
use crate::device::policy_spec;
use crate::strset::texts;
use crate::envelope::RpcResponse;

verus! {

/// Name of the control socket in the abstract namespace.
pub const ABSTRACT_SOCKET_NAME: &'static str = "vpn-share-proxy.sock";

/// JSON-RPC style error codes.
pub const PARSE_ERROR: i32 = -32700;
pub const METHOD_NOT_FOUND: i32 = -32601;
pub const INVALID_PARAMS: i32 = -32602;
pub const INTERNAL_ERROR: i32 = -1;

/// The methods of the protocol.
#[derive(Clone, Copy, PartialEq, Eq, Debug, Structural)]
pub enum RpcAction {
    GetStatus,
    GetConfig,
    ListInterfaces,
    SetConfig,
    SetProxyMode,
    ListDevices,
    SetDevicePolicy,
    ReconcileNow,
    Subscribe,
    Unknown,
}

pub open spec fn action_spec(a: Seq<char>) -> RpcAction {
    if a == "get_status"@ {
        RpcAction::GetStatus
    } else if a == "get_config"@ {
        RpcAction::GetConfig
    } else if a == "list_interfaces"@ {
        RpcAction::ListInterfaces
    } else if a == "set_config"@ {
        RpcAction::SetConfig
    } else if a == "set_proxy_mode"@ {
        RpcAction::SetProxyMode
    } else if a == "list_devices"@ {
        RpcAction::ListDevices
    } else if a == "set_device_policy"@ {
        RpcAction::SetDevicePolicy
    } else if a == "reconcile_now"@ {
        RpcAction::ReconcileNow
    } else if a == "subscribe"@ {
        RpcAction::Subscribe
    } else {
        RpcAction::Unknown
    }
}

/// The method a request names.
pub fn parse_action(action: &str) -> (r: RpcAction)
    ensures
        r == action_spec(action@),
{
    if text_eq(action, "get_status") {
        RpcAction::GetStatus
    } else if text_eq(action, "get_config") {
        RpcAction::GetConfig
    } else if text_eq(action, "list_interfaces") {
        RpcAction::ListInterfaces
    } else if text_eq(action, "set_config") {
        RpcAction::SetConfig
    } else if text_eq(action, "set_proxy_mode") {
        RpcAction::SetProxyMode
    } else if text_eq(action, "list_devices") {
        RpcAction::ListDevices
    } else if text_eq(action, "set_device_policy") {
        RpcAction::SetDevicePolicy
    } else if text_eq(action, "reconcile_now") {
        RpcAction::ReconcileNow
    } else if text_eq(action, "subscribe") {
        RpcAction::Subscribe
    } else {
        RpcAction::Unknown
    }
}

/// An error answer: code and message.
pub struct RpcError {
    pub code: i32,
    pub msg: String,
}

pub open spec fn mode_spec(m: Seq<char>) -> Option<ProxyMode> {
    if m == "global"@ {
        Some(ProxyMode::Global)
    } else if m == "mac_allowlist"@ {
        Some(ProxyMode::MacAllowlist)
    } else if m == "mac_blocklist"@ {
        Some(ProxyMode::MacBlocklist)
    } else {
        None
    }
}

/// Reads the `mode` parameter of `set_proxy_mode`.
pub fn decide_proxy_mode(mode: Option<&str>) -> (r: Result<ProxyMode, RpcError>)
    ensures
        match mode {
            Some(m) => match mode_spec(m@) {
                Some(pm) => r == Ok::<ProxyMode, RpcError>(pm),
                None => r matches Err(e) && e.code == INVALID_PARAMS
                    && e.msg@ == "Invalid mode: use global/mac_allowlist/mac_blocklist"@,
            },
            None => r matches Err(e) && e.code == INVALID_PARAMS
                && e.msg@ == "Invalid mode: use global/mac_allowlist/mac_blocklist"@,
        },
{
    if let Some(m) = mode {
        if text_eq(m, "global") {
            return Ok(ProxyMode::Global);
        } else if text_eq(m, "mac_allowlist") {
            return Ok(ProxyMode::MacAllowlist);
        } else if text_eq(m, "mac_blocklist") {
            return Ok(ProxyMode::MacBlocklist);
        }
    }
    Err(RpcError { code: INVALID_PARAMS, msg: String::from_str("Invalid mode: use global/mac_allowlist/mac_blocklist") })
}

/// The reply text after a mode change.
pub fn proxy_mode_set_message(mode: &str) -> (r: String)
    ensures
        r@ == "Proxy mode set to "@ + mode@,
{
    let mut r = String::from_str("Proxy mode set to ");
    r.append(mode);
    r
}

/// The reply text of an unknown method.
pub fn method_not_found_message(action: &str) -> (r: String)
    ensures
        r@ == "Method '"@ + action@ + "' not found"@,
{
    let mut r = String::from_str("Method '");
    r.append(action);
    r.append("' not found");
    r
}

/// The reply text of a configuration that does not parse: address fields get
/// a hint about the DNS address format.
pub fn invalid_config_message(msg: &str) -> (r: String)
    ensures
        r@ == (if crate::text::contains_text(msg@, "custom_dns"@) || crate::text::contains_text(msg@, "Ipv4"@)
            || crate::text::contains_text(msg@, "Ipv6"@) {
            "Invalid config (check DNS IP format): "@ + msg@
        } else {
            "Invalid config params: "@ + msg@
        }),
{
    let mut r = if text_contains(msg, "custom_dns") || text_contains(msg, "Ipv4") || text_contains(msg, "Ipv6") {
        String::from_str("Invalid config (check DNS IP format): ")
    } else {
        String::from_str("Invalid config params: ")
    };
    r.append(msg);
    r
}

/// A device policy request.
#[derive(Clone, Copy, PartialEq, Eq, Debug, Structural)]
pub enum PolicyChange {
    /// `allow`: route the device through the VPN.
    Allow,
    /// `block` or `bypass`: let the device go direct.
    Block,
    /// `default`: forget the device in both lists.
    Default,
}

pub open spec fn policy_change_spec(p: Seq<char>) -> Option<PolicyChange> {
    if p == "allow"@ {
        Some(PolicyChange::Allow)
    } else if p == "block"@ || p == "bypass"@ {
        Some(PolicyChange::Block)
    } else if p == "default"@ {
        Some(PolicyChange::Default)
    } else {
        None
    }
}

/// Reads the parameters of `set_device_policy`: the MAC address (upper-cased)
/// and the change.
pub fn decide_device_policy(mac: Option<&str>, policy: Option<&str>) -> (r: Result<(String, PolicyChange), RpcError>)
    ensures
        match (mac, policy) {
            (Some(m), Some(p)) => match policy_change_spec(p@) {
                Some(c) => r matches Ok((u, c2)) && u@ == str_uppercase(m@) && c2 == c,
                None => r matches Err(e) && e.code == INVALID_PARAMS
                    && e.msg@ == "Invalid policy: use allow/block/bypass/default"@,
            },
            _ => r matches Err(e) && e.code == INVALID_PARAMS && e.msg@ == "Missing 'mac' or 'policy' parameter"@,
        },
{
    match (mac, policy) {
        (Some(m), Some(p)) => {
            let upper = to_upper(m);
            let change = if text_eq(p, "allow") {
                PolicyChange::Allow
            } else if text_eq(p, "block") || text_eq(p, "bypass") {
                PolicyChange::Block
            } else if text_eq(p, "default") {
                PolicyChange::Default
            } else {
                return Err(RpcError {
                    code: INVALID_PARAMS,
                    msg: String::from_str("Invalid policy: use allow/block/bypass/default"),
                });
            };
            Ok((upper, change))
        },
        _ => Err(RpcError { code: INVALID_PARAMS, msg: String::from_str("Missing 'mac' or 'policy' parameter") }),
    }
}

/// The configuration after a device policy change, as sets and mode.
pub open spec fn policy_edit_allow(old: GatewayConfig, mac: Seq<char>, c: PolicyChange) -> Set<Seq<char>> {
    match c {
        PolicyChange::Allow => if old.proxy_mode == ProxyMode::MacAllowlist {
            old.mac_allow_list@.insert(mac)
        } else {
            old.mac_allow_list@
        },
        PolicyChange::Block => old.mac_allow_list@.remove(mac),
        PolicyChange::Default => old.mac_allow_list@.remove(mac),
    }
}

pub open spec fn policy_edit_block(old: GatewayConfig, mac: Seq<char>, c: PolicyChange) -> Set<Seq<char>> {
    match c {
        PolicyChange::Allow => old.mac_block_list@.remove(mac),
        PolicyChange::Block => if old.proxy_mode == ProxyMode::MacAllowlist {
            old.mac_block_list@
        } else {
            old.mac_block_list@.insert(mac)
        },
        PolicyChange::Default => old.mac_block_list@.remove(mac),
    }
}

pub open spec fn policy_edit_mode(old: GatewayConfig, c: PolicyChange) -> ProxyMode {
    if c == PolicyChange::Block && old.proxy_mode == ProxyMode::Global {
        ProxyMode::MacBlocklist
    } else {
        old.proxy_mode
    }
}

/// Edits the configuration for a device policy: `allow` takes the MAC off
/// the block list (and onto the allow list in allowlist mode); `block`
/// takes it off the allow list and, outside allowlist mode, onto the block
/// list, switching global mode to blocklist; `default` takes it off both.
pub fn apply_device_policy(cfg: &mut GatewayConfig, mac: &String, change: PolicyChange)
    ensures
        final(cfg).mac_allow_list@ == policy_edit_allow(*old(cfg), mac@, change),
        final(cfg).mac_block_list@ == policy_edit_block(*old(cfg), mac@, change),
        final(cfg).proxy_mode == policy_edit_mode(*old(cfg), change),
        final(cfg).enable_ipv4 == old(cfg).enable_ipv4,
        final(cfg).enable_ipv6 == old(cfg).enable_ipv6,
        final(cfg).dns_redirect == old(cfg).dns_redirect,
        final(cfg).custom_dns_v4 == old(cfg).custom_dns_v4,
        final(cfg).custom_dns_v6 == old(cfg).custom_dns_v6,
        final(cfg).managed_ifaces == old(cfg).managed_ifaces,
{
    match change {
        PolicyChange::Allow => {
            cfg.mac_block_list.remove(mac.as_str());
            match cfg.proxy_mode {
                ProxyMode::MacAllowlist => {
                    cfg.mac_allow_list.insert(mac.clone());
                },
                _ => {},
            }
        },
        PolicyChange::Block => {
            cfg.mac_allow_list.remove(mac.as_str());
            match cfg.proxy_mode {
                ProxyMode::MacAllowlist => {},
                ProxyMode::Global => {
                    cfg.proxy_mode = ProxyMode::MacBlocklist;
                    cfg.mac_block_list.insert(mac.clone());
                },
                ProxyMode::MacBlocklist => {
                    cfg.mac_block_list.insert(mac.clone());
                },
            }
        },
        PolicyChange::Default => {
            cfg.mac_allow_list.remove(mac.as_str());
            cfg.mac_block_list.remove(mac.as_str());
        },
    }
}

/// What a device shows after a policy change: after `default` it is on
/// neither list; after `allow` it is off the block list, and shows allowed
/// where the allow list holds it (always in allowlist mode); after `block` it
/// is off the allow list, and shows blocked where the block list holds it
/// (always outside allowlist mode).
pub proof fn law_device_policy_takes_effect(old: GatewayConfig, new: GatewayConfig, mac: Seq<char>, c: PolicyChange)
    requires
        new.mac_allow_list@ == policy_edit_allow(old, mac, c),
        new.mac_block_list@ == policy_edit_block(old, mac, c),
        new.proxy_mode == policy_edit_mode(old, c),
    ensures
        c == PolicyChange::Allow ==> policy_spec(mac, new) == (if old.proxy_mode == ProxyMode::MacAllowlist
            || old.mac_allow_list@.contains(mac) {
            "allowed"@
        } else {
            "default"@
        }),
        c == PolicyChange::Block ==> policy_spec(mac, new) == (if old.proxy_mode != ProxyMode::MacAllowlist
            || old.mac_block_list@.contains(mac) {
            "blocked"@
        } else {
            "default"@
        }),
        c == PolicyChange::Default ==> policy_spec(mac, new) == "default"@,
{
}

/// Marks which interfaces of a listing are managed by `config`.
pub fn mark_managed(ifaces: &mut Vec<NetIfaceInfo>, config: &GatewayConfig)
    ensures
        final(ifaces)@.len() == old(ifaces)@.len(),
        forall|i: int|
            0 <= i < final(ifaces)@.len() ==> {
                let a = #[trigger] final(ifaces)@[i];
                let b = old(ifaces)@[i];
                &&& a.name == b.name
                &&& a.operstate == b.operstate
                &&& a.recommended == b.recommended
                &&& a.hint == b.hint
                &&& a.managed == config.managed_ifaces@.contains(b.name@)
            },
{
    let ghost orig = ifaces@;
    let mut i: usize = 0;
    while i < ifaces.len()
        invariant
            0 <= i <= ifaces@.len(),
            ifaces@.len() == orig.len(),
            forall|k: int|
                0 <= k < ifaces@.len() ==> {
                    let a = #[trigger] ifaces@[k];
                    let b = orig[k];
                    &&& a.name == b.name
                    &&& a.operstate == b.operstate
                    &&& a.recommended == b.recommended
                    &&& a.hint == b.hint
                    &&& (k < i ==> a.managed == config.managed_ifaces@.contains(b.name@))
                },
        decreases ifaces@.len() - i,
    {
        let m = config.managed_ifaces.contains(ifaces[i].name.as_str());
        let old_item = ifaces.remove(i);
        let item = NetIfaceInfo {
            name: old_item.name,
            operstate: old_item.operstate,
            recommended: old_item.recommended,
            hint: old_item.hint,
            managed: m,
        };
        ifaces.insert(i, item);
        i += 1;
    }
}

/// Topics joined with `, `.
pub open spec fn joined(ts: Seq<Seq<char>>) -> Seq<char>
    decreases ts.len(),
{
    if ts.len() == 0 {
        seq![]
    } else if ts.len() == 1 {
        ts[0]
    } else {
        joined(ts.drop_last()) + ", "@ + ts.last()
    }
}

/// The reply to `subscribe`: the requested topics, when the request names some.
pub fn subscribed_message(topics: Option<&Vec<String>>) -> (r: String)
    ensures
        r@ == (match topics {
            Some(ts) => "Subscribed to topics: ["@ + joined(texts(ts@)) + "]"@,
            None => "Subscribed to live events"@,
        }),
{
    match topics {
        None => String::from_str("Subscribed to live events"),
        Some(ts) => {
            let mut r = String::from_str("Subscribed to topics: [");
            let ghost start = r@;
            let mut i: usize = 0;
            proof {
                assert(texts(ts@).take(0) =~= Seq::<Seq<char>>::empty());
            }
            while i < ts.len()
                invariant
                    0 <= i <= ts@.len(),
                    start == "Subscribed to topics: ["@,
                    r@ == start + joined(texts(ts@).take(i as int)),
                decreases ts@.len() - i,
            {
                let ghost before = r@;
                if i > 0 {
                    r.append(", ");
                }
                r.append(ts[i].as_str());
                proof {
                    let t = texts(ts@);
                    assert(t.take(i + 1).drop_last() =~= t.take(i as int));
                    assert(t.take(i + 1).last() == ts@[i as int]@);
                    if i == 0 {
                        assert(t.take(1).len() == 1);
                        assert(r@ =~= start + joined(t.take(i + 1)));
                    } else {
                        assert(r@ =~= start + joined(t.take(i + 1)));
                    }
                }
                i += 1;
            }
            proof {
                assert(texts(ts@).take(ts@.len() as int) =~= texts(ts@));
            }
            r.append("]");
            r
        },
    }
}

/// The topic an event belongs to: its name up to the first `_`
/// (`vpn_changed` is `vpn`, `device_connected` is `device`).
pub open spec fn event_topic(event: Seq<char>) -> Seq<char>
    decreases event.len(),
{
    if event.len() == 0 || event[0] == '_' {
        seq![]
    } else {
        seq![event[0]] + event_topic(event.drop_first())
    }
}

/// Whether a subscription gets an event: one made without topics gets every
/// event; otherwise the topics must name `all` or the event's topic.
pub open spec fn subscription_covers(topics: Option<Seq<Seq<char>>>, event: Seq<char>) -> bool {
    match topics {
        None => true,
        Some(ts) => ts.contains("all"@) || ts.contains(event_topic(event)),
    }
}

proof fn lemma_event_topic(e: Seq<char>, j: int)
    requires
        0 <= j <= e.len(),
        forall|k: int| 0 <= k < j ==> e[k] != '_',
        j == e.len() || e[j] == '_',
    ensures
        event_topic(e) == e.subrange(0, j),
    decreases j,
{
    if j > 0 {
        let d = e.drop_first();
        assert forall|k: int| 0 <= k < j - 1 implies d[k] != '_' by {
            assert(d[k] == e[k + 1]);
        }
        if j < e.len() {
            assert(d[j - 1] == e[j]);
        }
        lemma_event_topic(d, j - 1);
        assert(e.subrange(0, j) =~= seq![e[0]] + d.subrange(0, j - 1));
    } else {
        assert(e.subrange(0, 0) =~= Seq::<char>::empty());
    }
}

/// Whether a client subscribed with `topics` (as the `subscribe` request
/// gave them, if it gave any) gets the event named `event`.
pub fn subscription_wants(topics: Option<&Vec<String>>, event: &str) -> (r: bool)
    ensures
        r == subscription_covers(
            match topics {
                Some(ts) => Some(texts(ts@)),
                None => None,
            },
            event@,
        ),
{
    let ts = match topics {
        None => {
            return true;
        },
        Some(ts) => ts,
    };
    let cs = crate::text::chars_of(event);
    let mut j: usize = 0;
    while j < cs.len() && cs[j] != '_'
        invariant
            0 <= j <= cs@.len(),
            forall|k: int| 0 <= k < j ==> cs@[k] != '_',
        decreases cs@.len() - j,
    {
        j += 1;
    }
    proof {
        lemma_event_topic(event@, j as int);
    }
    let topic = crate::text::window_string(event, &cs, 0, j);
    let ghost t = texts(ts@);
    let mut i: usize = 0;
    while i < ts.len()
        invariant
            0 <= i <= ts@.len(),
            topics == Some(ts),
            t == texts(ts@),
            topic@ == event_topic(event@),
            forall|k: int| 0 <= k < i ==> t[k] != "all"@ && t[k] != topic@,
        decreases ts@.len() - i,
    {
        let name = ts[i].as_str();
        if text_eq(name, "all") || text_eq(name, topic.as_str()) {
            proof {
                assert(t[i as int] == ts@[i as int]@);
                if name@ == "all"@ {
                    assert(t.contains("all"@));
                } else {
                    assert(t.contains(topic@));
                }
            }
            return true;
        }
        proof {
            assert(t[i as int] == ts@[i as int]@);
        }
        i += 1;
    }
    proof {
        assert(!t.contains("all"@)) by {
            if t.contains("all"@) {
                let k = choose|k: int| 0 <= k < t.len() && t[k] == "all"@;
                assert(t[k] != "all"@);
            }
        }
        assert(!t.contains(topic@)) by {
            if t.contains(topic@) {
                let k = choose|k: int| 0 <= k < t.len() && t[k] == topic@;
                assert(t[k] != topic@);
            }
        }
    }
    false
}

/// A failure answer: the id, `INTERNAL_ERROR`, and `prefix` followed by the
/// error text.
fn failure(id: serde_json::Value, prefix: &str, err: &str) -> (r: RpcResponse)
    ensures
        r.id == id,
        r.code == INTERNAL_ERROR,
        r.msg@ == prefix@ + err@,
        r.data is None,
{
    let mut msg = String::from_str(prefix);
    msg.append(err);
    RpcResponse::error(id, INTERNAL_ERROR, msg)
}

/// The answer to `set_config` once the new configuration was stored, given
/// the store's error text if it failed (the reconcile that follows a store
/// does not change the answer).
pub fn set_config_reply(id: serde_json::Value, save_error: Option<&str>) -> (r: RpcResponse)
    ensures
        r.id == id,
        r.data is None,
        match save_error {
            Some(e) => r.code == INTERNAL_ERROR && r.msg@ == "Failed saving config: "@ + e@,
            None => r.code == 0 && r.msg@ == "Configuration saved and applied"@,
        },
{
    match save_error {
        Some(e) => failure(id, "Failed saving config: ", e),
        None => RpcResponse::ok(id, String::from_str("Configuration saved and applied")),
    }
}

/// The answer to `set_proxy_mode` with the mode text `mode` once the
/// configuration was stored, given the store's error text if it failed.
pub fn set_proxy_mode_reply(id: serde_json::Value, mode: &str, save_error: Option<&str>) -> (r: RpcResponse)
    ensures
        r.id == id,
        r.data is None,
        match save_error {
            Some(e) => r.code == INTERNAL_ERROR && r.msg@ == "Failed saving config: "@ + e@,
            None => r.code == 0 && r.msg@ == "Proxy mode set to "@ + mode@,
        },
{
    match save_error {
        Some(e) => failure(id, "Failed saving config: ", e),
        None => RpcResponse::ok(id, proxy_mode_set_message(mode)),
    }
}

/// The answer to `set_device_policy` once the configuration was stored and,
/// if that worked, reconciled: the store's failure comes first, then the
/// reconcile's.
pub fn set_device_policy_reply(id: serde_json::Value, save_error: Option<&str>, apply_error: Option<&str>) -> (r: RpcResponse)
    ensures
        r.id == id,
        r.data is None,
        match (save_error, apply_error) {
            (Some(e), _) => r.code == INTERNAL_ERROR && r.msg@ == "Failed to save config: "@ + e@,
            (None, Some(e)) => r.code == INTERNAL_ERROR && r.msg@ == "Failed to apply policy: "@ + e@,
            (None, None) => r.code == 0 && r.msg@ == "Device policy updated"@,
        },
{
    match (save_error, apply_error) {
        (Some(e), _) => failure(id, "Failed to save config: ", e),
        (None, Some(e)) => failure(id, "Failed to apply policy: ", e),
        (None, None) => RpcResponse::ok(id, String::from_str("Device policy updated")),
    }
}

/// The answer to `reconcile_now`: on success the report as payload, with
/// the message `Reconciliation completed`; otherwise the error text.
pub fn reconcile_now_reply(id: serde_json::Value, outcome: Result<serde_json::Value, &str>) -> (r: RpcResponse)
    ensures
        r.id == id,
        match outcome {
            Ok(report) => r.code == 0 && r.msg@ == "Reconciliation completed"@ && r.data == Some(report),
            Err(e) => r.code == INTERNAL_ERROR && r.msg@ == "Reconciliation failed: "@ + e@ && r.data is None,
        },
{
    match outcome {
        Ok(report) => RpcResponse { id, code: 0, msg: String::from_str("Reconciliation completed"), data: Some(report) },
        Err(e) => failure(id, "Reconciliation failed: ", e),
    }
}

/// A step of a request that edits the stored configuration (`set_config`,
/// `set_proxy_mode`, `set_device_policy`), once the new configuration is
/// built.
#[derive(Clone, Copy, PartialEq, Eq, Debug, Structural)]
pub enum WriteStep {
    /// Store the configuration.
    Save,
    /// Reconcile the installed state with it.
    Reconcile,
    /// Announce the device policy change.
    PublishPolicy,
    /// Answer the request.
    Answer,
}

/// What follows `done` (which succeeded when `ok`): a failed store is
/// answered at once; a stored configuration is reconciled; after the
/// reconcile, a device policy change that went through is announced; then
/// the request is answered.
pub open spec fn write_next_spec(action: RpcAction, done: WriteStep, ok: bool) -> WriteStep {
    match done {
        WriteStep::Save => if ok {
            WriteStep::Reconcile
        } else {
            WriteStep::Answer
        },
        WriteStep::Reconcile => if ok && action == RpcAction::SetDevicePolicy {
            WriteStep::PublishPolicy
        } else {
            WriteStep::Answer
        },
        _ => WriteStep::Answer,
    }
}

/// The step after `done` of a configuration-editing request `action`.
pub fn write_next(action: RpcAction, done: WriteStep, ok: bool) -> (r: WriteStep)
    ensures
        r == write_next_spec(action, done, ok),
{
    match done {
        WriteStep::Save => if ok {
            WriteStep::Reconcile
        } else {
            WriteStep::Answer
        },
        WriteStep::Reconcile => {
            let policy = match action {
                RpcAction::SetDevicePolicy => true,
                _ => false,
            };
            if ok && policy {
                WriteStep::PublishPolicy
            } else {
                WriteStep::Answer
            }
        },
        _ => WriteStep::Answer,
    }
}

} // verus!
