//! Hotspot client sessions: which ARP neighbours are tracked, and what
//! routing policy each MAC address gets.
use vstd::prelude::*;
use crate::types::{ConnectedDevice, GatewayConfig, ProxyMode};
use crate::keyed::{has_key, keyed_map, keys_unique, lemma_keyed_empty, lemma_keyed_index, lemma_keyed_push, lemma_keyed_update};
use crate::text::{chars_of, field_spans, ip_text, is_ip_text, find_newline, has_prefix, lemma_line_step, line_spans, line_spans_from, skip_ws_to, span_text, split_fields, str_uppercase, text_eq, to_upper, trim_end_to, trim_window, window_eq, window_starts_with, window_string};

verus! {

/// Seconds after which an unseen device session ends.
pub const DEVICE_TTL_SECS: u64 = 600;

/// The policy a device shows: `"allowed"` for a MAC on the allow list,
/// `"blocked"` for one on the block list, `"default"` for one on neither. A
/// MAC on both lists shows the list that the mode consults (the block list
/// in blocklist mode, the allow list otherwise).
pub open spec fn policy_spec(mac: Seq<char>, config: GatewayConfig) -> Seq<char> {
    let on_allow = config.mac_allow_list@.contains(mac);
    let on_block = config.mac_block_list@.contains(mac);
    if on_block && (config.proxy_mode == ProxyMode::MacBlocklist || !on_allow) {
        "blocked"@
    } else if on_allow {
        "allowed"@
    } else {
        "default"@
    }
}

/// Devices are only managed in the allow/block modes, on managed interfaces.
pub open spec fn in_scope_spec(iface: Seq<char>, config: GatewayConfig) -> bool {
    !(config.proxy_mode is Global) && config.managed_ifaces@.contains(iface)
}

/// A neighbour from the ARP table: address text, upper-cased MAC, interface.
pub struct ArpEntry {
    pub ip: String,
    pub mac: String,
    pub iface: String,
}

pub ghost struct ArpView {
    pub ip: Seq<char>,
    pub mac: Seq<char>,
    pub iface: Seq<char>,
}

pub open spec fn arp_view(a: ArpEntry) -> ArpView {
    ArpView { ip: a.ip@, mac: a.mac@, iface: a.iface@ }
}

pub open spec fn arps_view(v: Seq<ArpEntry>) -> Seq<ArpView> {
    v.map_values(|a: ArpEntry| arp_view(a))
}

pub open spec fn arp_key() -> spec_fn(ArpView) -> Seq<char> {
    |a: ArpView| a.mac
}

/// A device session, as plain values.
pub ghost struct DeviceView {
    pub ip: Seq<char>,
    pub mac: Seq<char>,
    pub iface: Seq<char>,
    pub hostname: Option<Seq<char>>,
    pub policy: Seq<char>,
    pub first_seen: u64,
    pub last_seen: u64,
}

pub open spec fn dev_view(d: ConnectedDevice) -> DeviceView {
    DeviceView {
        ip: d.ip@,
        mac: d.mac@,
        iface: d.iface@,
        hostname: match d.hostname {
            Some(h) => Some(h@),
            None => None,
        },
        policy: d.policy@,
        first_seen: d.first_seen,
        last_seen: d.last_seen,
    }
}

pub open spec fn devs_view(v: Seq<ConnectedDevice>) -> Seq<DeviceView> {
    v.map_values(|d: ConnectedDevice| dev_view(d))
}

pub open spec fn dev_key() -> spec_fn(DeviceView) -> Seq<char> {
    |d: DeviceView| d.mac
}

/// The neighbour of one ARP line's fields (address, flags, upper-cased MAC,
/// interface): none when the MAC is all zeros or the flags are `0x0`/`0x00`
/// (incomplete), when the interface is out of scope, or when the address is
/// not the text of an IP address.
pub open spec fn arp_entry_spec(ip: Seq<char>, flags: Seq<char>, mac: Seq<char>, iface: Seq<char>, config: GatewayConfig) -> Option<ArpView> {
    if mac == "00:00:00:00:00:00"@ || flags == "0x0"@ || flags == "0x00"@ {
        None
    } else if !in_scope_spec(iface, config) {
        None
    } else if !ip_text(ip) {
        None
    } else {
        Some(ArpView { ip, mac, iface })
    }
}

/// One ARP table line: skipped when blank or the header (`IP ...`), when it
/// has fewer than six fields, or as `arp_entry_spec` says of its fields (the
/// MAC upper-cased).
pub open spec fn arp_line_spec(cs: Seq<char>, sp: (int, int), config: GatewayConfig) -> Option<ArpView> {
    let a = skip_ws_to(cs, sp.0, sp.1);
    let b = trim_end_to(cs, a, sp.1);
    if a >= b || has_prefix(cs.subrange(a, b), "IP"@) {
        None
    } else {
        let fs = field_spans(cs, a, b);
        if fs.len() < 6 {
            None
        } else {
            arp_entry_spec(
                span_text(cs, fs[0]),
                span_text(cs, fs[2]),
                str_uppercase(span_text(cs, fs[3])),
                span_text(cs, fs[5]),
                config,
            )
        }
    }
}

/// The in-scope neighbours of the lines in `spans`, in order.
pub open spec fn arp_from_spans(cs: Seq<char>, spans: Seq<(int, int)>, config: GatewayConfig) -> Seq<ArpView>
    decreases spans.len(),
{
    if spans.len() == 0 {
        seq![]
    } else {
        arp_from_spans(cs, spans.drop_last(), config) + match arp_line_spec(cs, spans.last(), config) {
            Some(x) => seq![x],
            None => seq![],
        }
    }
}

/// Neighbours by MAC; a later line for the same MAC replaces an earlier one.
pub open spec fn disc_map(d: Seq<ArpView>) -> Map<Seq<char>, ArpView>
    decreases d.len(),
{
    if d.len() == 0 {
        Map::empty()
    } else {
        disc_map(d.drop_last()).insert(d.last().mac, d.last())
    }
}

/// A known device seen again.
pub open spec fn touched(old: DeviceView, a: ArpView, config: GatewayConfig, now: u64) -> DeviceView {
    DeviceView { last_seen: now, ip: a.ip, iface: a.iface, policy: policy_spec(a.mac, config), ..old }
}

/// A device seen for the first time.
pub open spec fn fresh(a: ArpView, config: GatewayConfig, now: u64) -> DeviceView {
    DeviceView {
        ip: a.ip,
        mac: a.mac,
        iface: a.iface,
        hostname: None,
        policy: policy_spec(a.mac, config),
        first_seen: now,
        last_seen: now,
    }
}

/// Sessions after the neighbours `d` are entered or touched.
pub open spec fn merged_spec(
    old: Map<Seq<char>, DeviceView>,
    d: Map<Seq<char>, ArpView>,
    config: GatewayConfig,
    now: u64,
) -> Map<Seq<char>, DeviceView> {
    Map::new(
        |k: Seq<char>| old.contains_key(k) || d.contains_key(k),
        |k: Seq<char>|
            if d.contains_key(k) {
                if old.contains_key(k) {
                    touched(old[k], d[k], config, now)
                } else {
                    fresh(d[k], config, now)
                }
            } else {
                old[k]
            },
    )
}

/// `now - last_seen`, floored at 0.
pub open spec fn age(now: u64, last_seen: u64) -> int {
    if now >= last_seen {
        now - last_seen
    } else {
        0
    }
}

/// A session survives while its interface is in scope and it is not older
/// than the TTL.
pub open spec fn keep_spec(dev: DeviceView, config: GatewayConfig, now: u64) -> bool {
    !(config.proxy_mode is Global) && config.managed_ifaces@.contains(dev.iface) && age(now, dev.last_seen)
        <= DEVICE_TTL_SECS
}

/// Sessions after a refresh.
pub open spec fn refreshed_spec(
    old: Map<Seq<char>, DeviceView>,
    d: Map<Seq<char>, ArpView>,
    config: GatewayConfig,
    now: u64,
) -> Map<Seq<char>, DeviceView> {
    let m = merged_spec(old, d, config, now);
    Map::new(|k: Seq<char>| m.contains_key(k) && keep_spec(m[k], config, now), |k: Seq<char>| m[k])
}

/// The listing of managed devices with their current policy.
pub open spec fn listed_spec(devs: Seq<DeviceView>, config: GatewayConfig) -> Seq<DeviceView>
    decreases devs.len(),
{
    if devs.len() == 0 {
        seq![]
    } else {
        let d = devs.last();
        listed_spec(devs.drop_last(), config) + if config.managed_ifaces@.contains(d.iface) {
            seq![DeviceView { policy: policy_spec(d.mac, config), ..d }]
        } else {
            seq![]
        }
    }
}

/// Tracker of the clients seen on managed interfaces.
pub struct DeviceTracker {
    devices: Vec<ConnectedDevice>,
}

impl View for DeviceTracker {
    type V = Map<Seq<char>, DeviceView>;

    closed spec fn view(&self) -> Map<Seq<char>, DeviceView> {
        keyed_map(devs_view(self.devices@), dev_key())
    }
}

impl DeviceTracker {
    /// One session per MAC; every value of the type satisfies this.
    #[verifier::type_invariant]
    pub closed spec fn well_formed(self) -> bool {
        keys_unique(devs_view(self.devices@), dev_key())
    }

    /// The sessions in their stored order.
    pub closed spec fn listing(self) -> Seq<DeviceView> {
        devs_view(self.devices@)
    }

    /// The stored listing holds one session per MAC, and the sessions by MAC
    /// are the view.
    pub proof fn lemma_listing(&self)
        requires
            self.well_formed(),
        ensures
            keys_unique(self.listing(), dev_key()),
            self@ == keyed_map(self.listing(), dev_key()),
    {
    }

    /// No sessions.
    pub fn new() -> (r: Self)
        ensures
            r@ == Map::<Seq<char>, DeviceView>::empty(),
    {
        let r = DeviceTracker { devices: Vec::new() };
        proof {
            lemma_keyed_empty(devs_view(r.devices@), dev_key());
        }
        r
    }

    /// The in-scope neighbours of an ARP table (`/proc/net/arp`) whose
    /// address is the text of an IP address, in line order.
    pub fn scan_arp(content: &str, config: &GatewayConfig) -> (r: Vec<ArpEntry>)
        ensures
            arps_view(r@) == arp_from_spans(content@, line_spans(content@), *config),
    {
        let cs = chars_of(content);
        let mut out: Vec<ArpEntry> = Vec::new();
        let ghost mut done: Seq<(int, int)> = seq![];
        let mut pos: usize = 0;
        proof {
            assert(line_spans(cs@) =~= done + line_spans_from(cs@, 0));
            assert(arps_view(out@) =~= Seq::<ArpView>::empty());
        }
        while pos < cs.len()
            invariant
                0 <= pos <= cs@.len(),
                cs@ == content@,
                line_spans(cs@) == done + line_spans_from(cs@, pos as int),
                arps_view(out@) == arp_from_spans(cs@, done, *config),
            decreases cs@.len() - pos,
        {
            let e = find_newline(&cs, pos);
            proof {
                lemma_line_step(cs@, pos as int);
            }
            let h = arp_line(&cs, content, pos, e, config);
            let ghost prev = done;
            let ghost o0 = arps_view(out@);
            proof {
                done = done.push((pos as int, e as int));
                assert(done.drop_last() =~= prev);
                assert(line_spans(cs@) =~= done + line_spans_from(cs@, e + 1));
            }
            match h {
                Some(x) => {
                    out.push(x);
                    proof {
                        assert(arps_view(out@) =~= o0 + seq![arp_view(x)]);
                    }
                },
                None => {
                    proof {
                        assert(arps_view(out@) =~= o0 + Seq::<ArpView>::empty());
                    }
                },
            }
            if e >= cs.len() {
                proof {
                    assert(line_spans_from(cs@, e + 1) =~= Seq::<(int, int)>::empty());
                    assert(line_spans_from(cs@, cs@.len() as int) =~= Seq::<(int, int)>::empty());
                }
                pos = cs.len();
            } else {
                pos = e + 1;
            }
        }
        proof {
            assert(line_spans_from(cs@, pos as int) =~= Seq::<(int, int)>::empty());
            assert(done =~= line_spans(cs@));
        }
        out
    }

    /// Enters or touches the sessions of the neighbours `discovered` (one per
    /// MAC, the last entry winning), then ends the sessions that are out of
    /// scope or older than the TTL. Returns the new sessions and the MACs of
    /// the ended ones.
    pub fn refresh(&mut self, config: &GatewayConfig, discovered: &Vec<ArpEntry>, now: u64) -> (r: (Vec<ConnectedDevice>, Vec<String>))
        ensures
            final(self)@ == refreshed_spec(old(self)@, disc_map(arps_view(discovered@)), *config, now),
            keys_unique(devs_view(r.0@), dev_key()),
            forall|i: int|
                0 <= i < r.0@.len() ==> {
                    let n = #[trigger] devs_view(r.0@)[i];
                    &&& disc_map(arps_view(discovered@)).contains_key(n.mac)
                    &&& !old(self)@.contains_key(n.mac)
                    &&& n == fresh(disc_map(arps_view(discovered@))[n.mac], *config, now)
                },
            forall|k: Seq<char>|
                #[trigger] disc_map(arps_view(discovered@)).contains_key(k) && !old(self)@.contains_key(k)
                    ==> has_key(devs_view(r.0@), dev_key(), k),
            crate::strset::no_dups(crate::strset::texts(r.1@)),
            forall|k: Seq<char>|
                crate::strset::texts(r.1@).contains(k) <==> {
                    let m = merged_spec(old(self)@, disc_map(arps_view(discovered@)), *config, now);
                    m.contains_key(k) && !keep_spec(m[k], *config, now)
                },
    {
        proof {
            use_type_invariant(&*self);
        }
        let ghost old_map = self@;
        let ghost dm = disc_map(arps_view(discovered@));
        let uniq = dedup_arp(discovered);
        let mut devices: Vec<ConnectedDevice> = Vec::new();
        std::mem::swap(&mut devices, &mut self.devices);
        let mut newly: Vec<ConnectedDevice> = Vec::new();
        let mut i: usize = 0;
        proof {
            assert(arps_view(uniq@).take(0).len() == 0);
            lemma_keyed_empty(arps_view(uniq@).take(0), arp_key());
            assert(merged_spec(old_map, Map::empty(), *config, now) =~= old_map);
            lemma_keyed_empty(devs_view(newly@), dev_key());
        }
        while i < uniq.len()
            invariant
                0 <= i <= uniq@.len(),
                old_map == old(self)@,
                dm == disc_map(arps_view(discovered@)),
                keys_unique(arps_view(uniq@), arp_key()),
                keyed_map(arps_view(uniq@), arp_key()) == dm,
                keys_unique(devs_view(devices@), dev_key()),
                keyed_map(devs_view(devices@), dev_key()) == merged_spec(
                    old_map,
                    keyed_map(arps_view(uniq@).take(i as int), arp_key()),
                    *config,
                    now,
                ),
                keys_unique(devs_view(newly@), dev_key()),
                forall|n: int|
                    0 <= n < newly@.len() ==> {
                        let nv = #[trigger] devs_view(newly@)[n];
                        &&& dm.contains_key(nv.mac)
                        &&& keyed_map(arps_view(uniq@).take(i as int), arp_key()).contains_key(nv.mac)
                        &&& !old_map.contains_key(nv.mac)
                        &&& nv == fresh(dm[nv.mac], *config, now)
                    },
                forall|k: Seq<char>|
                    #[trigger] keyed_map(arps_view(uniq@).take(i as int), arp_key()).contains_key(k)
                        && !old_map.contains_key(k) ==> has_key(devs_view(newly@), dev_key(), k),
            decreases uniq@.len() - i,
        {
            let a = &uniq[i];
            let ghost av = arp_view(*a);
            let ghost pre = arps_view(uniq@).take(i as int);
            let ghost dmi = keyed_map(pre, arp_key());
            proof {
                assert(arps_view(uniq@).take(i + 1) =~= pre.push(av));
                assert(keys_unique(pre, arp_key()));
                assert(!has_key(pre, arp_key(), av.mac)) by {
                    if has_key(pre, arp_key(), av.mac) {
                        let k = choose|k: int| 0 <= k < pre.len() && arp_key()(pre[k]) == av.mac;
                        assert(arps_view(uniq@)[k] == pre[k]);
                        assert(arps_view(uniq@)[i as int] == av);
                    }
                }
                lemma_keyed_push(pre, arp_key(), av);
                lemma_merge_step(old_map, dmi, av, *config, now);
                lemma_keyed_index(arps_view(uniq@), arp_key(), i as int);
                assert(dm[av.mac] == av);
            }
            let policy = String::from_str(DeviceTracker::policy_for_mac(a.mac.as_str(), config));
            let ghost d0 = devs_view(devices@);
            let ghost nb = devs_view(newly@);
            match find_dev(&devices, a.mac.as_str()) {
                Some(j) => {
                    let od = &devices[j];
                    let nd = ConnectedDevice {
                        ip: a.ip.clone(),
                        mac: od.mac.clone(),
                        iface: a.iface.clone(),
                        hostname: match &od.hostname {
                            Some(h) => Some(h.clone()),
                            None => None,
                        },
                        policy,
                        first_seen: od.first_seen,
                        last_seen: now,
                    };
                    proof {
                        lemma_keyed_index(d0, dev_key(), j as int);
                        assert(old_map.contains_key(av.mac));
                        assert(old_map[av.mac] == d0[j as int]);
                        assert(dev_view(nd) == touched(old_map[av.mac], av, *config, now));
                    }
                    let ghost ndv = dev_view(nd);
                    devices.remove(j);
                    devices.insert(j, nd);
                    proof {
                        assert(devs_view(devices@) =~= d0.update(j as int, ndv));
                        lemma_keyed_update(d0, dev_key(), j as int, ndv);
                    }
                },
                None => {
                    let nd = ConnectedDevice {
                        ip: a.ip.clone(),
                        mac: a.mac.clone(),
                        iface: a.iface.clone(),
                        hostname: None,
                        policy,
                        first_seen: now,
                        last_seen: now,
                    };
                    let ghost ndv = dev_view(nd);
                    proof {
                        assert(!keyed_map(d0, dev_key()).contains_key(av.mac));
                        assert(!merged_spec(old_map, dmi, *config, now).contains_key(av.mac));
                        assert(!old_map.contains_key(av.mac));
                        assert(ndv == fresh(av, *config, now));
                    }
                    let ghost n0 = devs_view(newly@);
                    proof {
                        assert(!has_key(n0, dev_key(), av.mac)) by {
                            if has_key(n0, dev_key(), av.mac) {
                                let k = choose|k: int| 0 <= k < n0.len() && dev_key()(n0[k]) == av.mac;
                                assert(dmi.contains_key(n0[k].mac));
                            }
                        }
                        lemma_keyed_push(n0, dev_key(), ndv);
                    }
                    newly.push(clone_dev(&nd));
                    devices.push(nd);
                    proof {
                        assert(devs_view(newly@) =~= n0.push(ndv));
                        assert(devs_view(devices@) =~= d0.push(ndv));
                        lemma_keyed_push(d0, dev_key(), ndv);
                        assert(has_key(devs_view(newly@), dev_key(), av.mac)) by {
                            assert(devs_view(newly@)[n0.len() as int] == ndv);
                        }
                    }
                },
            }
            proof {
                let pre1 = arps_view(uniq@).take(i + 1);
                let na = devs_view(newly@);
                assert(na.len() >= nb.len());
                assert(forall|w: int| 0 <= w < nb.len() ==> na[w] == nb[w]);
                assert forall|k: Seq<char>|
                    #[trigger] keyed_map(pre1, arp_key()).contains_key(k) && !old_map.contains_key(k)
                        implies has_key(na, dev_key(), k) by {
                    if k != av.mac {
                        assert(dmi.contains_key(k));
                        assert(has_key(nb, dev_key(), k));
                        let w = choose|w: int| 0 <= w < nb.len() && dev_key()(nb[w]) == k;
                        assert(na[w] == nb[w]);
                    }
                }
                assert forall|n: int| 0 <= n < na.len() implies keyed_map(pre1, arp_key()).contains_key(#[trigger] na[n].mac) by {
                    if n < nb.len() {
                        assert(na[n] == nb[n]);
                        assert(dmi.contains_key(nb[n].mac));
                    }
                }
            }
            i += 1;
        }
        // Ending sessions.
        let ghost full = devs_view(devices@);
        let ghost m = merged_spec(old_map, dm, *config, now);
        proof {
            assert(arps_view(uniq@).take(uniq@.len() as int) =~= arps_view(uniq@));
        }
        let mut kept: Vec<ConnectedDevice> = Vec::new();
        let mut gone: Vec<String> = Vec::new();
        let mut k: usize = 0;
        proof {
            lemma_keyed_empty(devs_view(kept@), dev_key());
        }
        while k < devices.len()
            invariant
                0 <= k <= devices@.len(),
                full == devs_view(devices@),
                keys_unique(full, dev_key()),
                keyed_map(full, dev_key()) == m,
                keys_unique(devs_view(kept@), dev_key()),
                keyed_map(devs_view(kept@), dev_key()) == Map::new(
                    |key: Seq<char>| has_key(full.take(k as int), dev_key(), key) && keep_spec(m[key], *config, now),
                    |key: Seq<char>| m[key],
                ),
                crate::strset::no_dups(crate::strset::texts(gone@)),
                forall|key: Seq<char>|
                    crate::strset::texts(gone@).contains(key) <==> (has_key(full.take(k as int), dev_key(), key)
                        && !keep_spec(m[key], *config, now)),
            decreases devices@.len() - k,
        {
            let d = &devices[k];
            let ghost dv = full[k as int];
            let ghost gb = crate::strset::texts(gone@);
            let age = if now >= d.last_seen {
                now - d.last_seen
            } else {
                0
            };
            let in_scope = match config.proxy_mode {
                ProxyMode::Global => false,
                _ => config.managed_ifaces.contains(d.iface.as_str()),
            };
            proof {
                lemma_keyed_index(full, dev_key(), k as int);
                assert(m[dv.mac] == dv);
                let t0 = full.take(k as int);
                let t1 = full.take(k + 1);
                assert(t1 =~= t0.push(dv));
                assert(!has_key(t0, dev_key(), dv.mac)) by {
                    if has_key(t0, dev_key(), dv.mac) {
                        let w = choose|w: int| 0 <= w < t0.len() && dev_key()(t0[w]) == dv.mac;
                        assert(full[w] == t0[w]);
                    }
                }
                assert forall|key: Seq<char>| has_key(t1, dev_key(), key) <==> (has_key(t0, dev_key(), key) || key == dv.mac) by {
                    if has_key(t1, dev_key(), key) {
                        let w = choose|w: int| 0 <= w < t1.len() && dev_key()(t1[w]) == key;
                        if w < t0.len() {
                            assert(t0[w] == t1[w]);
                        }
                    }
                    if has_key(t0, dev_key(), key) {
                        let w = choose|w: int| 0 <= w < t0.len() && dev_key()(t0[w]) == key;
                        assert(t0[w] == t1[w]);
                    }
                    if key == dv.mac {
                        assert(t1[t0.len() as int] == dv);
                    }
                }
            }
            if in_scope && age <= DEVICE_TTL_SECS {
                let ghost k0 = devs_view(kept@);
                proof {
                    assert(!has_key(k0, dev_key(), dv.mac)) by {
                        if has_key(k0, dev_key(), dv.mac) {
                            let w = choose|w: int| 0 <= w < k0.len() && dev_key()(k0[w]) == dv.mac;
                            lemma_keyed_index(k0, dev_key(), w);
                        }
                    }
                    lemma_keyed_push(k0, dev_key(), dv);
                }
                kept.push(clone_dev(d));
                proof {
                    assert(devs_view(kept@) =~= k0.push(dv));
                    assert(keyed_map(devs_view(kept@), dev_key()) =~= Map::new(
                        |key: Seq<char>| has_key(full.take(k + 1), dev_key(), key) && keep_spec(m[key], *config, now),
                        |key: Seq<char>| m[key],
                    ));
                }
            } else {
                let ghost g0 = crate::strset::texts(gone@);
                gone.push(d.mac.clone());
                proof {
                    assert(crate::strset::texts(gone@) =~= g0.push(dv.mac));
                    assert(!g0.contains(dv.mac));
                    assert(keyed_map(devs_view(kept@), dev_key()) =~= Map::new(
                        |key: Seq<char>| has_key(full.take(k + 1), dev_key(), key) && keep_spec(m[key], *config, now),
                        |key: Seq<char>| m[key],
                    ));
                }
            }
            proof {
                let t0 = full.take(k as int);
                let t1 = full.take(k + 1);
                assert forall|key: Seq<char>|
                    crate::strset::texts(gone@).contains(key) <==> (has_key(t1, dev_key(), key)
                        && !keep_spec(m[key], *config, now)) by {
                    if key != dv.mac {
                        if crate::strset::texts(gone@).contains(key) {
                            let w = choose|w: int| 0 <= w < crate::strset::texts(gone@).len() && crate::strset::texts(gone@)[w] == key;
                            if w < gb.len() {
                                assert(gb[w] == key);
                                assert(gb.contains(key));
                            }
                        }
                        if gb.contains(key) {
                            let w = choose|w: int| 0 <= w < gb.len() && gb[w] == key;
                            assert(crate::strset::texts(gone@)[w] == key);
                        }
                    } else {
                        assert(!gb.contains(key));
                        if crate::strset::texts(gone@).contains(key) {
                            let w = choose|w: int| 0 <= w < crate::strset::texts(gone@).len() && crate::strset::texts(gone@)[w] == key;
                            if w < gb.len() {
                                assert(gb[w] == key);
                            }
                        }
                        if !keep_spec(m[key], *config, now) {
                            assert(crate::strset::texts(gone@)[gb.len() as int] == key);
                        }
                    }
                }
            }
            k += 1;
        }
        proof {
            assert(full.take(devices@.len() as int) =~= full);
            assert(keyed_map(devs_view(kept@), dev_key()) =~= refreshed_spec(old_map, dm, *config, now));
        }
        self.devices = kept;
        (newly, gone)
    }

    /// The sessions on managed interfaces with their current policy (none in
    /// global mode, where devices are not managed).
    pub fn list_with_policy(&self, config: &GatewayConfig) -> (r: Vec<ConnectedDevice>)
        ensures
            devs_view(r@) == (if config.proxy_mode is Global {
                Seq::<DeviceView>::empty()
            } else {
                listed_spec(self.listing(), *config)
            }),
    {
        let mut out: Vec<ConnectedDevice> = Vec::new();
        proof {
            assert(devs_view(out@) =~= Seq::<DeviceView>::empty());
        }
        if let ProxyMode::Global = config.proxy_mode {
            return out;
        }
        let mut i: usize = 0;
        proof {
            assert(self.listing().take(0) =~= Seq::<DeviceView>::empty());
        }
        while i < self.devices.len()
            invariant
                0 <= i <= self.devices@.len(),
                !(config.proxy_mode is Global),
                devs_view(out@) == listed_spec(self.listing().take(i as int), *config),
            decreases self.devices@.len() - i,
        {
            let d = &self.devices[i];
            let ghost o0 = devs_view(out@);
            proof {
                assert(self.listing().take(i + 1).drop_last() =~= self.listing().take(i as int));
                assert(self.listing().take(i + 1).last() == dev_view(*d));
            }
            if config.managed_ifaces.contains(d.iface.as_str()) {
                let mut c = clone_dev(d);
                c.policy = String::from_str(DeviceTracker::policy_for_mac(c.mac.as_str(), config));
                let ghost cv = dev_view(c);
                out.push(c);
                proof {
                    assert(devs_view(out@) =~= o0 + seq![cv]);
                }
            } else {
                proof {
                    assert(devs_view(out@) =~= o0 + Seq::<DeviceView>::empty());
                }
            }
            i += 1;
        }
        proof {
            assert(self.listing().take(self.devices@.len() as int) =~= self.listing());
        }
        out
    }

    /// Number of sessions.
    pub fn count(&self) -> (r: usize)
        ensures
            r == self@.dom().len(),
    {
        proof {
            use_type_invariant(self);
            lemma_keyed_len(devs_view(self.devices@), dev_key());
        }
        self.devices.len()
    }

    /// The routing policy of a MAC address under `config`.
    pub fn policy_for_mac(mac: &str, config: &GatewayConfig) -> (r: &'static str)
        ensures
            r@ == policy_spec(mac@, *config),
    {
        let on_allow = config.mac_allow_list.contains(mac);
        let on_block = config.mac_block_list.contains(mac);
        let blocklist = match config.proxy_mode {
            ProxyMode::MacBlocklist => true,
            _ => false,
        };
        if on_block && (blocklist || !on_allow) {
            "blocked"
        } else if on_allow {
            "allowed"
        } else {
            "default"
        }
    }

    /// The neighbour of one ARP line's fields, the MAC already upper-cased.
    pub fn arp_entry_of(ip: String, flags: &str, mac_upper: String, iface: String, config: &GatewayConfig) -> (r: Option<ArpEntry>)
        ensures
            match r {
                Some(e) => arp_entry_spec(ip@, flags@, mac_upper@, iface@, *config) == Some(arp_view(e)),
                None => arp_entry_spec(ip@, flags@, mac_upper@, iface@, *config) is None,
            },
    {
        if text_eq(mac_upper.as_str(), "00:00:00:00:00:00") || text_eq(flags, "0x0") || text_eq(flags, "0x00") {
            return None;
        }
        if !DeviceTracker::iface_in_scope(iface.as_str(), config) {
            return None;
        }
        if !is_ip_text(ip.as_str()) {
            return None;
        }
        Some(ArpEntry { ip, mac: mac_upper, iface })
    }

    /// Whether a neighbour on `iface` is tracked.
    pub fn iface_in_scope(iface: &str, config: &GatewayConfig) -> (r: bool)
        ensures
            r == in_scope_spec(iface@, *config),
    {
        match config.proxy_mode {
            ProxyMode::Global => false,
            _ => !config.managed_ifaces.is_empty() && config.managed_ifaces.contains(iface),
        }
    }
}

fn find_arp(u: &Vec<ArpEntry>, mac: &str) -> (r: Option<usize>)
    ensures
        match r {
            Some(j) => j < u@.len() && u@[j as int].mac@ == mac@,
            None => !has_key(arps_view(u@), arp_key(), mac@),
        },
{
    let mut j: usize = 0;
    while j < u.len()
        invariant
            0 <= j <= u@.len(),
            forall|k: int| 0 <= k < j ==> u@[k].mac@ != mac@,
        decreases u@.len() - j,
    {
        if text_eq(u[j].mac.as_str(), mac) {
            return Some(j);
        }
        j += 1;
    }
    proof {
        if has_key(arps_view(u@), arp_key(), mac@) {
            let k = choose|k: int| 0 <= k < arps_view(u@).len() && arp_key()(arps_view(u@)[k]) == mac@;
            assert(u@[k].mac@ == mac@);
        }
    }
    None
}

fn find_dev(v: &Vec<ConnectedDevice>, mac: &str) -> (r: Option<usize>)
    ensures
        match r {
            Some(j) => j < v@.len() && v@[j as int].mac@ == mac@,
            None => !has_key(devs_view(v@), dev_key(), mac@),
        },
{
    let mut j: usize = 0;
    while j < v.len()
        invariant
            0 <= j <= v@.len(),
            forall|k: int| 0 <= k < j ==> v@[k].mac@ != mac@,
        decreases v@.len() - j,
    {
        if text_eq(v[j].mac.as_str(), mac) {
            return Some(j);
        }
        j += 1;
    }
    proof {
        if has_key(devs_view(v@), dev_key(), mac@) {
            let k = choose|k: int| 0 <= k < devs_view(v@).len() && dev_key()(devs_view(v@)[k]) == mac@;
            assert(v@[k].mac@ == mac@);
        }
    }
    None
}

fn clone_arp(a: &ArpEntry) -> (r: ArpEntry)
    ensures
        arp_view(r) == arp_view(*a),
{
    ArpEntry { ip: a.ip.clone(), mac: a.mac.clone(), iface: a.iface.clone() }
}

fn clone_dev(d: &ConnectedDevice) -> (r: ConnectedDevice)
    ensures
        dev_view(r) == dev_view(*d),
{
    ConnectedDevice {
        ip: d.ip.clone(),
        mac: d.mac.clone(),
        iface: d.iface.clone(),
        hostname: match &d.hostname {
            Some(h) => Some(h.clone()),
            None => None,
        },
        policy: d.policy.clone(),
        first_seen: d.first_seen,
        last_seen: d.last_seen,
    }
}

/// The neighbours with one entry per MAC (the last one seen).
fn dedup_arp(d: &Vec<ArpEntry>) -> (u: Vec<ArpEntry>)
    ensures
        keys_unique(arps_view(u@), arp_key()),
        keyed_map(arps_view(u@), arp_key()) == disc_map(arps_view(d@)),
{
    let mut u: Vec<ArpEntry> = Vec::new();
    let mut i: usize = 0;
    proof {
        lemma_keyed_empty(arps_view(u@), arp_key());
        assert(arps_view(d@).take(0).len() == 0);
    }
    while i < d.len()
        invariant
            0 <= i <= d@.len(),
            keys_unique(arps_view(u@), arp_key()),
            keyed_map(arps_view(u@), arp_key()) == disc_map(arps_view(d@).take(i as int)),
        decreases d@.len() - i,
    {
        let x = clone_arp(&d[i]);
        let ghost xv = arp_view(x);
        let ghost u0 = arps_view(u@);
        proof {
            assert(arps_view(d@).take(i + 1).drop_last() =~= arps_view(d@).take(i as int));
            assert(arps_view(d@).take(i + 1).last() == xv);
        }
        match find_arp(&u, x.mac.as_str()) {
            Some(j) => {
                u.remove(j);
                u.insert(j, x);
                proof {
                    assert(arps_view(u@) =~= u0.update(j as int, xv));
                    lemma_keyed_update(u0, arp_key(), j as int, xv);
                }
            },
            None => {
                u.push(x);
                proof {
                    assert(arps_view(u@) =~= u0.push(xv));
                    lemma_keyed_push(u0, arp_key(), xv);
                }
            },
        }
        i += 1;
    }
    proof {
        assert(arps_view(d@).take(d@.len() as int) =~= arps_view(d@));
    }
    u
}

proof fn lemma_merge_step(
    old: Map<Seq<char>, DeviceView>,
    dm: Map<Seq<char>, ArpView>,
    a: ArpView,
    config: GatewayConfig,
    now: u64,
)
    requires
        !dm.contains_key(a.mac),
    ensures
        merged_spec(old, dm.insert(a.mac, a), config, now) == merged_spec(old, dm, config, now).insert(
            a.mac,
            if old.contains_key(a.mac) {
                touched(old[a.mac], a, config, now)
            } else {
                fresh(a, config, now)
            },
        ),
{
    assert(merged_spec(old, dm.insert(a.mac, a), config, now) =~= merged_spec(old, dm, config, now).insert(
        a.mac,
        if old.contains_key(a.mac) {
            touched(old[a.mac], a, config, now)
        } else {
            fresh(a, config, now)
        },
    ));
}

fn arp_line(cs: &Vec<char>, text: &str, ls: usize, le: usize, config: &GatewayConfig) -> (r: Option<ArpEntry>)
    requires
        ls <= le <= cs.len(),
        cs@ == text@,
    ensures
        match r {
            Some(e) => arp_line_spec(cs@, (ls as int, le as int), *config) == Some(arp_view(e)),
            None => arp_line_spec(cs@, (ls as int, le as int), *config) is None,
        },
{
    let (a, b) = trim_window(cs, ls, le);
    let ip_c = chars_of("IP");
    if a >= b || window_starts_with(cs, a, b, &ip_c) {
        return None;
    }
    let fs = split_fields(cs, a, b);
    if fs.len() < 6 {
        return None;
    }
    let (fa, fb) = fs[2];
    let (ma, mb) = fs[3];
    let (ia, ib) = fs[5];
    let (pa, pb) = fs[0];
    let mac_raw = window_string(text, cs, ma, mb);
    let mac = to_upper(mac_raw.as_str());
    let flags = window_string(text, cs, fa, fb);
    let iface = window_string(text, cs, ia, ib);
    let ip = window_string(text, cs, pa, pb);
    DeviceTracker::arp_entry_of(ip, flags.as_str(), mac, iface, config)
}

proof fn lemma_keyed_len<T>(s: Seq<T>, key: spec_fn(T) -> Seq<char>)
    requires
        keys_unique(s, key),
    ensures
        keyed_map(s, key).dom().len() == s.len(),
        keyed_map(s, key).dom().finite(),
{
    let ks = s.map_values(key);
    assert(keyed_map(s, key).dom() =~= ks.to_set()) by {
        assert forall|k: Seq<char>| keyed_map(s, key).dom().contains(k) <==> ks.to_set().contains(k) by {
            if has_key(s, key, k) {
                let i = choose|i: int| 0 <= i < s.len() && key(s[i]) == k;
                assert(ks[i] == k);
                assert(ks.contains(k));
            }
            if ks.to_set().contains(k) {
                let i = choose|i: int| 0 <= i < ks.len() && ks[i] == k;
                assert(key(s[i]) == k);
            }
        }
    }
    assert(ks.no_duplicates()) by {
        assert forall|i: int, j: int| 0 <= i < ks.len() && 0 <= j < ks.len() && i != j implies ks[i] != ks[j] by {
            assert(ks[i] == key(s[i]) && ks[j] == key(s[j]));
        }
    }
    ks.unique_seq_to_set();
}

/// After a refresh: every remaining session is on a managed interface of an
/// allow/block mode and was seen within the TTL (so global mode keeps none);
/// every neighbour seen now on such an interface is tracked, with the address
/// and policy just seen, keeping the first sighting of a known device.
pub proof fn law_refresh_sessions(
    old: Map<Seq<char>, DeviceView>,
    d: Map<Seq<char>, ArpView>,
    config: GatewayConfig,
    now: u64,
)
    ensures
        forall|k: Seq<char>|
            #[trigger] refreshed_spec(old, d, config, now).contains_key(k) ==> {
                let v = refreshed_spec(old, d, config, now)[k];
                &&& !(config.proxy_mode is Global)
                &&& config.managed_ifaces@.contains(v.iface)
                &&& age(now, v.last_seen) <= DEVICE_TTL_SECS
            },
        config.proxy_mode is Global ==> refreshed_spec(old, d, config, now) == Map::<Seq<char>, DeviceView>::empty(),
        forall|k: Seq<char>|
            #[trigger] d.contains_key(k) && in_scope_spec(d[k].iface, config) ==> {
                let r = refreshed_spec(old, d, config, now);
                &&& r.contains_key(k)
                &&& r[k].last_seen == now
                &&& r[k].ip == d[k].ip
                &&& r[k].iface == d[k].iface
                &&& r[k].policy == policy_spec(d[k].mac, config)
                &&& old.contains_key(k) ==> r[k].first_seen == old[k].first_seen
                &&& !old.contains_key(k) ==> r[k].first_seen == now
            },
{
    if config.proxy_mode is Global {
        assert(refreshed_spec(old, d, config, now) =~= Map::<Seq<char>, DeviceView>::empty());
    }
}

} // verus!
