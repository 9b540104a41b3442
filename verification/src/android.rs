//! Facts about the Android host that are computed from what the host shows:
//! build properties, routing table names, interface names and states.
use vstd::prelude::*;
use crate::strset::{lemma_lt_irreflexive, lemma_lt_transitive, seq_lt, texts};
use crate::types::NetIfaceInfo;
use crate::text::{chars_of, str_lowercase, to_lower, text_eq, text_starts_with, field_spans, find_char, find_char_spec, find_newline, first_some, first_some_of, has_prefix, lemma_line_step, line_spans, line_spans_from, parse_u32_spec, parse_u32_window, skip_ws_to, span_text, split_fields, trim_end_to, trim_window, trimmed, window_eq, window_starts_with, window_string};

verus! {

/// Module directory used when `MODDIR` is not set.
pub const DEFAULT_MODDIR: &'static str = "/data/adb/modules/vpn_share_proxy";
/// Android's routing table name file.
pub const RT_TABLES_PATH: &'static str = "/data/misc/net/rt_tables";
/// The kernel's ARP table.
pub const ARP_TABLE_PATH: &'static str = "/proc/net/arp";

/// Helpers over the Android environment.
pub struct AndroidEnv;

/// One entry of `/sys/class/net`: its name and, when it could be read, the
/// raw content of its `operstate` file.
pub struct IfaceEntry {
    pub name: String,
    pub operstate: Option<String>,
}

/// The trimmed window of a line span.
pub open spec fn trim_lo(cs: Seq<char>, sp: (int, int)) -> int {
    skip_ws_to(cs, sp.0, sp.1)
}

pub open spec fn trim_hi(cs: Seq<char>, sp: (int, int)) -> int {
    trim_end_to(cs, trim_lo(cs, sp), sp.1)
}

/// A trimmed line that is empty or starts with `#` says nothing.
pub open spec fn blank_or_comment(cs: Seq<char>, sp: (int, int)) -> bool {
    trim_lo(cs, sp) >= trim_hi(cs, sp) || cs[trim_lo(cs, sp)] == '#'
}

/// `key = value` on a build.prop line: the trimmed value when the trimmed
/// part before the first `=` is `key`.
pub open spec fn prop_line_spec(cs: Seq<char>, sp: (int, int), key: Seq<char>) -> Option<Seq<char>> {
    if blank_or_comment(cs, sp) {
        None
    } else {
        let a = trim_lo(cs, sp);
        let b = trim_hi(cs, sp);
        let e = find_char_spec(cs, a, b, '=');
        if e >= b {
            None
        } else if trimmed(cs, a, e) == key {
            Some(trimmed(cs, e + 1, b))
        } else {
            None
        }
    }
}

/// The value of `key` in one property file: its first defining line.
pub open spec fn prop_in_text(f: Seq<char>, key: Seq<char>) -> Option<Seq<char>> {
    first_some(line_spans(f), |sp: (int, int)| prop_line_spec(f, sp, key))
}

/// The value of `key` in the first property file that defines it.
pub open spec fn property_spec(files: Seq<Seq<char>>, key: Seq<char>) -> Option<Seq<char>> {
    first_some_of(files, |f: Seq<char>| prop_in_text(f, key))
}

/// A routing-table line naming a tun/wg table: its name and number.
pub open spec fn rt_line_spec(cs: Seq<char>, sp: (int, int)) -> Option<(Seq<char>, u32)> {
    if blank_or_comment(cs, sp) {
        None
    } else {
        let fs = field_spans(cs, trim_lo(cs, sp), trim_hi(cs, sp));
        if fs.len() >= 2 {
            let name = span_text(cs, fs[1]);
            if has_prefix(name, "tun"@) || has_prefix(name, "wg"@) {
                match parse_u32_spec(span_text(cs, fs[0])) {
                    Some(n) => Some((name, n)),
                    None => None,
                }
            } else {
                None
            }
        } else {
            None
        }
    }
}

/// The first tun/wg table of `rt_tables`.
pub open spec fn vpn_table_spec(t: Seq<char>) -> Option<(Seq<char>, u32)> {
    first_some(line_spans(t), |sp: (int, int)| rt_line_spec(t, sp))
}

/// A routing-table line naming `iface`: its number.
pub open spec fn table_line_spec(cs: Seq<char>, sp: (int, int), iface: Seq<char>) -> Option<u32> {
    if blank_or_comment(cs, sp) {
        None
    } else {
        let fs = field_spans(cs, trim_lo(cs, sp), trim_hi(cs, sp));
        if fs.len() >= 2 && span_text(cs, fs[1]) == iface {
            parse_u32_spec(span_text(cs, fs[0]))
        } else {
            None
        }
    }
}

/// The table number that `rt_tables` gives to `iface`.
pub open spec fn table_for_iface_spec(t: Seq<char>, iface: Seq<char>) -> Option<u32> {
    first_some(line_spans(t), |sp: (int, int)| table_line_spec(t, sp, iface))
}

proof fn lemma_first_some_step<T>(x: (int, int), rest: Seq<(int, int)>, f: spec_fn((int, int)) -> Option<T>)
    ensures
        first_some(seq![x] + rest, f) == (match f(x) {
            Some(v) => Some(v),
            None => first_some(rest, f),
        }),
{
    assert((seq![x] + rest).drop_first() =~= rest);
}

proof fn lemma_first_some_of_step<A, T>(xs: Seq<A>, i: int, f: spec_fn(A) -> Option<T>)
    requires
        0 <= i < xs.len(),
    ensures
        first_some_of(xs.skip(i), f) == (match f(xs[i]) {
            Some(v) => Some(v),
            None => first_some_of(xs.skip(i + 1), f),
        }),
{
    assert(xs.skip(i).drop_first() =~= xs.skip(i + 1));
}

fn lit(s: &str) -> (r: String)
    ensures
        r@ == s@,
{
    String::from_str(s)
}

/// Trimmed line window and whether the line is blank or a comment.
fn line_window(cs: &Vec<char>, ls: usize, le: usize) -> (r: (usize, usize, bool))
    requires
        ls <= le <= cs.len(),
    ensures
        r.0 == trim_lo(cs@, (ls as int, le as int)),
        r.1 == trim_hi(cs@, (ls as int, le as int)),
        r.2 == blank_or_comment(cs@, (ls as int, le as int)),
        ls <= r.0 <= r.1 <= le,
{
    let (a, b) = trim_window(cs, ls, le);
    let blank = a >= b || cs[a] == '#';
    (a, b, blank)
}

fn prop_line(cs: &Vec<char>, text: &str, ls: usize, le: usize, key: &Vec<char>) -> (r: Option<String>)
    requires
        ls <= le <= cs.len(),
        cs@ == text@,
    ensures
        opt_seq(r) == prop_line_spec(cs@, (ls as int, le as int), key@),
{
    let (a, b, blank) = line_window(cs, ls, le);
    if blank {
        return None;
    }
    let e = find_char(cs, a, b, '=');
    if e >= b {
        return None;
    }
    let (ka, kb) = trim_window(cs, a, e);
    if !window_eq(cs, ka, kb, key) {
        return None;
    }
    let (va, vb) = trim_window(cs, e + 1, b);
    Some(window_string(text, cs, va, vb))
}

pub open spec fn opt_seq(o: Option<String>) -> Option<Seq<char>> {
    match o {
        Some(s) => Some(s@),
        None => None,
    }
}

fn prop_in_content(text: &str, key: &Vec<char>) -> (r: Option<String>)
    ensures
        opt_seq(r) == prop_in_text(text@, key@),
{
    let cs = chars_of(text);
    let ghost f = |sp: (int, int)| prop_line_spec(cs@, sp, key@);
    let mut pos: usize = 0;
    while pos < cs.len()
        invariant
            0 <= pos <= cs@.len(),
            cs@ == text@,
            f == (|sp: (int, int)| prop_line_spec(cs@, sp, key@)),
            first_some(line_spans(cs@), f) == first_some(line_spans_from(cs@, pos as int), f),
        decreases cs@.len() - pos,
    {
        let e = find_newline(&cs, pos);
        proof {
            lemma_line_step(cs@, pos as int);
            lemma_first_some_step((pos as int, e as int), line_spans_from(cs@, e + 1), f);
        }
        let r = prop_line(&cs, text, pos, e, key);
        if r.is_some() {
            return r;
        }
        if e >= cs.len() {
            proof {
                assert(line_spans_from(cs@, e + 1) =~= Seq::<(int, int)>::empty());
                assert(line_spans_from(cs@, cs@.len() as int) =~= Seq::<(int, int)>::empty());
            }
            pos = cs.len();
        } else {
            pos = e + 1;
        }
    }
    proof {
        assert(line_spans_from(cs@, pos as int) =~= Seq::<(int, int)>::empty());
    }
    None
}

fn rt_line(cs: &Vec<char>, text: &str, ls: usize, le: usize) -> (r: Option<(String, u32)>)
    requires
        ls <= le <= cs.len(),
        cs@ == text@,
    ensures
        match r {
            Some((n, v)) => rt_line_spec(cs@, (ls as int, le as int)) == Some((n@, v)),
            None => rt_line_spec(cs@, (ls as int, le as int)) is None,
        },
{
    let (a, b, blank) = line_window(cs, ls, le);
    if blank {
        return None;
    }
    let fs = split_fields(cs, a, b);
    if fs.len() < 2 {
        return None;
    }
    let (na, nb) = fs[1];
    let (ia, ib) = fs[0];
    let tun = chars_of("tun");
    let wg = chars_of("wg");
    if window_starts_with(cs, na, nb, &tun) || window_starts_with(cs, na, nb, &wg) {
        match parse_u32_window(cs, ia, ib) {
            Some(n) => Some((window_string(text, cs, na, nb), n)),
            None => None,
        }
    } else {
        None
    }
}

fn table_line(cs: &Vec<char>, ls: usize, le: usize, iface: &Vec<char>) -> (r: Option<u32>)
    requires
        ls <= le <= cs.len(),
    ensures
        r == table_line_spec(cs@, (ls as int, le as int), iface@),
{
    let (a, b, blank) = line_window(cs, ls, le);
    if blank {
        return None;
    }
    let fs = split_fields(cs, a, b);
    if fs.len() < 2 {
        return None;
    }
    let (na, nb) = fs[1];
    let (ia, ib) = fs[0];
    if window_eq(cs, na, nb, iface) {
        parse_u32_window(cs, ia, ib)
    } else {
        None
    }
}

/// The resolver used in automatic DNS mode.
pub open spec fn vpn_dns_spec(v6: bool) -> Option<Seq<char>> {
    if v6 {
        Some("2606:4700:4700::1111"@)
    } else {
        Some("1.1.1.1"@)
    }
}

pub open spec fn entry_view(e: IfaceEntry) -> (Seq<char>, Option<Seq<char>>) {
    (e.name@, opt_seq(e.operstate))
}

pub open spec fn entries_view(v: Seq<IfaceEntry>) -> Seq<(Seq<char>, Option<Seq<char>>)> {
    v.map_values(|e: IfaceEntry| entry_view(e))
}

/// The whole text without surrounding whitespace.
pub open spec fn trim_all(t: Seq<char>) -> Seq<char> {
    trimmed(t, 0, t.len() as int)
}

/// An operational state that counts as usable.
pub open spec fn up_state(st: Seq<char>) -> bool {
    trim_all(st) == "up"@ || trim_all(st) == "unknown"@
}

/// A tun/wg interface that is up, or whose state cannot be read.
pub open spec fn tun_entry_spec(e: (Seq<char>, Option<Seq<char>>)) -> Option<Seq<char>> {
    if has_prefix(e.0, "tun"@) || has_prefix(e.0, "wg"@) {
        match e.1 {
            Some(st) => if up_state(st) {
                Some(e.0)
            } else {
                None
            },
            None => Some(e.0),
        }
    } else {
        None
    }
}

/// The active VPN interface: the first qualifying entry of `/sys/class/net`,
/// else the first tun/wg table of `rt_tables` (when it could be read).
pub open spec fn active_tun_spec(entries: Seq<(Seq<char>, Option<Seq<char>>)>, rt: Option<Seq<char>>) -> Option<Seq<char>> {
    match first_some_of(entries, |e: (Seq<char>, Option<Seq<char>>)| tun_entry_spec(e)) {
        Some(n) => Some(n),
        None => match rt {
            Some(t) => match vpn_table_spec(t) {
                Some(p) => Some(p.0),
                None => None,
            },
            None => None,
        },
    }
}

/// Routes of the classic tethering subnets (192.168.43/42/44.0, in the
/// little-endian hex of `/proc/net/route`).
pub open spec fn tether_dest(d: Seq<char>) -> bool {
    d == "002BA8C0"@ || d == "002AA8C0"@ || d == "002CA8C0"@
}

/// A route line of a tethering subnet on an interface other than `wlan0`.
pub open spec fn hot_line_spec(cs: Seq<char>, sp: (int, int)) -> Option<Seq<char>> {
    let fs = field_spans(cs, sp.0, sp.1);
    if fs.len() >= 2 && tether_dest(span_text(cs, fs[1])) && span_text(cs, fs[0]) != "wlan0"@ {
        Some(span_text(cs, fs[0]))
    } else {
        None
    }
}

/// The interfaces of the route lines in `spans`, each once, in order.
pub open spec fn hot_from_spans(cs: Seq<char>, spans: Seq<(int, int)>) -> Seq<Seq<char>>
    decreases spans.len(),
{
    if spans.len() == 0 {
        seq![]
    } else {
        let prev = hot_from_spans(cs, spans.drop_last());
        match hot_line_spec(cs, spans.last()) {
            Some(i) => if prev.contains(i) {
                prev
            } else {
                prev.push(i)
            },
            None => prev,
        }
    }
}

/// Dedicated tethering interface names that are checked when no route says anything.
pub open spec fn hotspot_candidates() -> Seq<Seq<char>> {
    seq!["wlan1"@, "ap0"@, "softap0"@, "swlan0"@, "rndis0"@, "usb0"@, "bt-pan"@]
}

/// The candidates (among the first `n`) whose state is known and usable.
pub open spec fn up_candidates(states: Seq<Option<Seq<char>>>, n: int) -> Seq<Seq<char>>
    decreases n,
{
    if n <= 0 {
        seq![]
    } else {
        let prev = up_candidates(states, n - 1);
        if n - 1 < states.len() && states[n - 1] is Some && up_state(states[n - 1]->0) {
            prev.push(hotspot_candidates()[n - 1])
        } else {
            prev
        }
    }
}

/// Downstream hotspot interfaces: those routing a tethering subnet, or else
/// the usable dedicated candidates. `wlan0` is never chosen from the routes:
/// in station mode it is the uplink.
pub open spec fn hotspots_spec(route: Option<Seq<char>>, states: Seq<Option<Seq<char>>>) -> Seq<Seq<char>> {
    let from_routes = match route {
        Some(t) => hot_from_spans(t, line_spans(t)),
        None => seq![],
    };
    if from_routes.len() == 0 {
        up_candidates(states, 7)
    } else {
        from_routes
    }
}

pub open spec fn wifi_hint() -> Seq<char> {
    "可能是 Wi-Fi 热点"@
}

pub open spec fn usb_hint() -> Seq<char> {
    "可能是 USB 共享"@
}

pub open spec fn bt_hint() -> Seq<char> {
    "可能是蓝牙共享"@
}

/// A route line for `name` that carries a tethering subnet: its hint.
pub open spec fn route_hint_line(cs: Seq<char>, sp: (int, int), name: Seq<char>) -> Option<Seq<char>> {
    let fs = field_spans(cs, sp.0, sp.1);
    if fs.len() >= 2 && span_text(cs, fs[0]) == name {
        let d = span_text(cs, fs[1]);
        if d == "002BA8C0"@ {
            Some(wifi_hint())
        } else if d == "002AA8C0"@ {
            Some(usb_hint())
        } else if d == "002CA8C0"@ {
            Some(bt_hint())
        } else {
            None
        }
    } else {
        None
    }
}

/// Display hint for an interface given its lower-cased name `low`: by that
/// name, else by the tethering subnet that `name` routes.
pub open spec fn hint_lowered_spec(low: Seq<char>, name: Seq<char>, route: Option<Seq<char>>) -> (bool, Seq<char>) {
    let n = low;
    if n == "wlan1"@ || n == "ap0"@ || n == "softap0"@ || n == "swlan0"@ || (has_prefix(n, "wlan"@) && n
        != "wlan0"@) {
        (true, wifi_hint())
    } else if n == "rndis0"@ || n == "usb0"@ || has_prefix(n, "rndis"@) {
        (true, usb_hint())
    } else if n == "bt-pan"@ || has_prefix(n, "bnep"@) {
        (true, bt_hint())
    } else {
        match route {
            Some(t) => match first_some(line_spans(t), |sp: (int, int)| route_hint_line(t, sp, name)) {
                Some(h) => (true, h),
                None => (false, seq![]),
            },
            None => (false, seq![]),
        }
    }
}

/// Display hint for an interface: by its lower-cased name, else by the
/// tethering subnet it routes.
pub open spec fn hint_spec(name: Seq<char>, route: Option<Seq<char>>) -> (bool, Seq<char>) {
    hint_lowered_spec(str_lowercase(name), name, route)
}

/// An interface listing entry, as plain values.
pub ghost struct IfaceInfoView {
    pub name: Seq<char>,
    pub operstate: Seq<char>,
    pub recommended: bool,
    pub hint: Seq<char>,
    pub managed: bool,
}

pub open spec fn info_view(i: NetIfaceInfo) -> IfaceInfoView {
    IfaceInfoView { name: i.name@, operstate: i.operstate@, recommended: i.recommended, hint: i.hint@, managed: i.managed }
}

pub open spec fn infos_view(v: Seq<NetIfaceInfo>) -> Seq<IfaceInfoView> {
    v.map_values(|i: NetIfaceInfo| info_view(i))
}

/// Listing order: recommended interfaces first, then by name.
pub open spec fn info_before(a: IfaceInfoView, b: IfaceInfoView) -> bool {
    (a.recommended && !b.recommended) || (a.recommended == b.recommended && seq_lt(a.name, b.name))
}

/// Where `x` goes in an ordered listing: before the first entry it precedes,
/// so that it follows the entries it ties with.
pub open spec fn insert_pos(l: Seq<IfaceInfoView>, x: IfaceInfoView) -> int
    decreases l.len(),
{
    if l.len() == 0 {
        0
    } else if info_before(x, l[0]) {
        0
    } else {
        1 + insert_pos(l.drop_first(), x)
    }
}

/// Stable sort of a listing (the order `sort_by` gives).
pub open spec fn sort_infos(s: Seq<IfaceInfoView>) -> Seq<IfaceInfoView>
    decreases s.len(),
{
    if s.len() == 0 {
        seq![]
    } else {
        let l = sort_infos(s.drop_last());
        l.insert(insert_pos(l, s.last()), s.last())
    }
}

/// The unsorted listing entry of one interface.
pub open spec fn info_of(e: (Seq<char>, Option<Seq<char>>), route: Option<Seq<char>>) -> IfaceInfoView {
    IfaceInfoView {
        name: e.0,
        operstate: match e.1 {
            Some(st) => trim_all(st),
            None => "unknown"@,
        },
        recommended: hint_spec(e.0, route).0,
        hint: hint_spec(e.0, route).1,
        managed: false,
    }
}

/// The whole text without surrounding whitespace.
fn trim_string(t: &str) -> (r: String)
    ensures
        r@ == trim_all(t@),
{
    let cs = chars_of(t);
    let (a, b) = trim_window(&cs, 0, cs.len());
    window_string(t, &cs, a, b)
}

fn is_up_state(st: &str) -> (r: bool)
    ensures
        r == up_state(st@),
{
    let t = trim_string(st);
    text_eq(t.as_str(), "up") || text_eq(t.as_str(), "unknown")
}

fn tun_entry(e: &IfaceEntry) -> (r: Option<String>)
    ensures
        opt_seq(r) == tun_entry_spec(entry_view(*e)),
{
    let n = e.name.as_str();
    if text_starts_with(n, "tun") || text_starts_with(n, "wg") {
        match &e.operstate {
            Some(st) => if is_up_state(st.as_str()) {
                Some(e.name.clone())
            } else {
                None
            },
            None => Some(e.name.clone()),
        }
    } else {
        None
    }
}

fn hot_line(cs: &Vec<char>, text: &str, ls: usize, le: usize) -> (r: Option<String>)
    requires
        ls <= le <= cs.len(),
        cs@ == text@,
    ensures
        opt_seq(r) == hot_line_spec(cs@, (ls as int, le as int)),
{
    let fs = split_fields(cs, ls, le);
    if fs.len() < 2 {
        return None;
    }
    let (ia, ib) = fs[0];
    let (da, db) = fs[1];
    let d1 = chars_of("002BA8C0");
    let d2 = chars_of("002AA8C0");
    let d3 = chars_of("002CA8C0");
    let w0 = chars_of("wlan0");
    let tether = window_eq(cs, da, db, &d1) || window_eq(cs, da, db, &d2) || window_eq(cs, da, db, &d3);
    if tether && !window_eq(cs, ia, ib, &w0) {
        Some(window_string(text, cs, ia, ib))
    } else {
        None
    }
}

fn contains_text_in(v: &Vec<String>, t: &str) -> (r: bool)
    ensures
        r == texts(v@).contains(t@),
{
    let mut i: usize = 0;
    while i < v.len()
        invariant
            0 <= i <= v@.len(),
            forall|k: int| 0 <= k < i ==> v@[k]@ != t@,
        decreases v@.len() - i,
    {
        if text_eq(v[i].as_str(), t) {
            proof {
                assert(texts(v@)[i as int] == t@);
            }
            return true;
        }
        i += 1;
    }
    proof {
        if texts(v@).contains(t@) {
            let k = choose|k: int| 0 <= k < texts(v@).len() && texts(v@)[k] == t@;
            assert(v@[k]@ == t@);
        }
    }
    false
}

fn hot_from_routes(text: &str) -> (r: Vec<String>)
    ensures
        texts(r@) == hot_from_spans(text@, line_spans(text@)),
{
    let cs = chars_of(text);
    let mut out: Vec<String> = Vec::new();
    let ghost mut done: Seq<(int, int)> = seq![];
    let mut pos: usize = 0;
    proof {
        assert(line_spans(cs@) =~= done + line_spans_from(cs@, 0));
        assert(texts(out@) =~= Seq::<Seq<char>>::empty());
    }
    while pos < cs.len()
        invariant
            0 <= pos <= cs@.len(),
            cs@ == text@,
            line_spans(cs@) == done + line_spans_from(cs@, pos as int),
            texts(out@) == hot_from_spans(cs@, done),
        decreases cs@.len() - pos,
    {
        let e = find_newline(&cs, pos);
        proof {
            lemma_line_step(cs@, pos as int);
        }
        let h = hot_line(&cs, text, pos, e);
        let ghost prev = done;
        proof {
            done = done.push((pos as int, e as int));
            assert(done.drop_last() =~= prev);
            assert(line_spans(cs@) =~= done + line_spans_from(cs@, e + 1));
        }
        match h {
            Some(i) => {
                if !contains_text_in(&out, i.as_str()) {
                    let ghost o0 = out@;
                    out.push(i);
                    proof {
                        assert(texts(out@) =~= texts(o0).push(i@));
                    }
                }
            },
            None => {},
        }
        if e >= cs.len() {
            proof {
                assert(line_spans_from(cs@, e + 1) =~= Seq::<(int, int)>::empty());
                assert(line_spans_from(cs@, cs@.len() as int) =~= Seq::<(int, int)>::empty());
            }
            pos = cs.len();
        } else {
            pos = e + 1;
        }
    }
    proof {
        assert(line_spans_from(cs@, pos as int) =~= Seq::<(int, int)>::empty());
        assert(done =~= line_spans(cs@));
    }
    out
}

fn route_hint(text: &str, name: &str) -> (r: Option<String>)
    ensures
        opt_seq(r) == first_some(line_spans(text@), |sp: (int, int)| route_hint_line(text@, sp, name@)),
{
    let cs = chars_of(text);
    let nc = chars_of(name);
    let d1 = chars_of("002BA8C0");
    let d2 = chars_of("002AA8C0");
    let d3 = chars_of("002CA8C0");
    let ghost f = |sp: (int, int)| route_hint_line(cs@, sp, name@);
    let mut pos: usize = 0;
    while pos < cs.len()
        invariant
            0 <= pos <= cs@.len(),
            cs@ == text@,
            nc@ == name@,
            d1@ == "002BA8C0"@,
            d2@ == "002AA8C0"@,
            d3@ == "002CA8C0"@,
            f == (|sp: (int, int)| route_hint_line(cs@, sp, name@)),
            first_some(line_spans(cs@), f) == first_some(line_spans_from(cs@, pos as int), f),
        decreases cs@.len() - pos,
    {
        let e = find_newline(&cs, pos);
        proof {
            lemma_line_step(cs@, pos as int);
            lemma_first_some_step((pos as int, e as int), line_spans_from(cs@, e + 1), f);
        }
        let fs = split_fields(&cs, pos, e);
        if fs.len() >= 2 {
            let (ia, ib) = fs[0];
            let (da, db) = fs[1];
            if window_eq(&cs, ia, ib, &nc) {
                if window_eq(&cs, da, db, &d1) {
                    return Some(lit("可能是 Wi-Fi 热点"));
                } else if window_eq(&cs, da, db, &d2) {
                    return Some(lit("可能是 USB 共享"));
                } else if window_eq(&cs, da, db, &d3) {
                    return Some(lit("可能是蓝牙共享"));
                }
            }
        }
        if e >= cs.len() {
            proof {
                assert(line_spans_from(cs@, e + 1) =~= Seq::<(int, int)>::empty());
                assert(line_spans_from(cs@, cs@.len() as int) =~= Seq::<(int, int)>::empty());
            }
            pos = cs.len();
        } else {
            pos = e + 1;
        }
    }
    proof {
        assert(line_spans_from(cs@, pos as int) =~= Seq::<(int, int)>::empty());
    }
    None
}

fn before(a: &NetIfaceInfo, b: &NetIfaceInfo) -> (r: bool)
    ensures
        r == info_before(info_view(*a), info_view(*b)),
{
    (a.recommended && !b.recommended) || (a.recommended == b.recommended && crate::strset::text_lt(
        a.name.as_str(),
        b.name.as_str(),
    ))
}

proof fn lemma_insert_pos_bound(l: Seq<IfaceInfoView>, x: IfaceInfoView)
    ensures
        0 <= insert_pos(l, x) <= l.len(),
    decreases l.len(),
{
    if l.len() > 0 && !info_before(x, l[0]) {
        lemma_insert_pos_bound(l.drop_first(), x);
    }
}

/// Inserts `x` where `insert_pos` puts it.
fn insert_sorted_info(l: &mut Vec<NetIfaceInfo>, x: NetIfaceInfo)
    ensures
        infos_view(final(l)@) == infos_view(old(l)@).insert(insert_pos(infos_view(old(l)@), info_view(x)), info_view(x)),
{
    let ghost v = infos_view(l@);
    let mut p: usize = 0;
    proof {
        assert(v.skip(0) =~= v);
        lemma_insert_pos_bound(v, info_view(x));
    }
    while p < l.len() && !before(&x, &l[p])
        invariant
            0 <= p <= l@.len(),
            v == infos_view(l@),
            insert_pos(v, info_view(x)) == p + insert_pos(v.skip(p as int), info_view(x)),
        decreases l@.len() - p,
    {
        proof {
            assert(v.skip(p as int)[0] == v[p as int]);
            assert(v.skip(p as int).drop_first() =~= v.skip(p + 1));
        }
        p += 1;
    }
    proof {
        if p < l@.len() {
            assert(v.skip(p as int)[0] == v[p as int]);
        } else {
            assert(v.skip(p as int).len() == 0);
        }
    }
    let ghost xv = info_view(x);
    l.insert(p, x);
    proof {
        assert(infos_view(l@) =~= v.insert(p as int, xv));
    }
}

impl AndroidEnv {
    /// The value of a build property: the first file (in the order given:
    /// system, vendor, product, prop.default, default.prop) that defines it.
    pub fn get_property(prop_files: &Vec<String>, key: &str) -> (r: Option<String>)
        ensures
            opt_seq(r) == property_spec(texts(prop_files@), key@),
    {
        let kc = chars_of(key);
        let ghost f = |t: Seq<char>| prop_in_text(t, key@);
        let mut i: usize = 0;
        proof {
            assert(texts(prop_files@).skip(0) =~= texts(prop_files@));
        }
        while i < prop_files.len()
            invariant
                0 <= i <= prop_files@.len(),
                kc@ == key@,
                f == (|t: Seq<char>| prop_in_text(t, key@)),
                property_spec(texts(prop_files@), key@) == first_some_of(texts(prop_files@).skip(i as int), f),
            decreases prop_files@.len() - i,
        {
            proof {
                lemma_first_some_of_step(texts(prop_files@), i as int, f);
            }
            let r = prop_in_content(prop_files[i].as_str(), &kc);
            if r.is_some() {
                return r;
            }
            i += 1;
        }
        proof {
            assert(texts(prop_files@).skip(i as int) =~= Seq::<Seq<char>>::empty());
        }
        None
    }

    /// Android SDK level from the build properties (0 when absent or not a number).
    pub fn sdk_version(prop_files: &Vec<String>) -> (r: u32)
        ensures
            r == (match property_spec(texts(prop_files@), "ro.build.version.sdk"@) {
                Some(v) => match parse_u32_spec(v) {
                    Some(n) => n,
                    None => 0,
                },
                None => 0,
            }),
    {
        match Self::get_property(prop_files, "ro.build.version.sdk") {
            Some(v) => {
                let cs = chars_of(v.as_str());
                proof {
                    assert(cs@.subrange(0, cs@.len() as int) =~= cs@);
                }
                match parse_u32_window(&cs, 0, cs.len()) {
                    Some(n) => n,
                    None => 0,
                }
            },
            None => 0,
        }
    }

    /// Device model from the build properties.
    pub fn device_model(prop_files: &Vec<String>) -> (r: String)
        ensures
            r@ == (match property_spec(texts(prop_files@), "ro.product.model"@) {
                Some(v) => v,
                None => "Android Device"@,
            }),
    {
        match Self::get_property(prop_files, "ro.product.model") {
            Some(v) => v,
            None => lit("Android Device"),
        }
    }

    /// The root manager, by which marker directory exists (first match wins).
    pub fn detect_root_manager(ksu_dir: bool, apatch_dir: bool, magisk_dir: bool) -> (r: &'static str)
        ensures
            r@ == (if ksu_dir {
                "KernelSU"@
            } else if apatch_dir {
                "APatch"@
            } else if magisk_dir {
                "Magisk"@
            } else {
                "Root"@
            }),
    {
        if ksu_dir {
            "KernelSU"
        } else if apatch_dir {
            "APatch"
        } else if magisk_dir {
            "Magisk"
        } else {
            "Root"
        }
    }

    /// The first tun/wg table named in `rt_tables`, with its number.
    pub fn find_vpn_from_rt_tables(rt_tables: &str) -> (r: Option<(String, u32)>)
        ensures
            match r {
                Some((n, v)) => vpn_table_spec(rt_tables@) == Some((n@, v)),
                None => vpn_table_spec(rt_tables@) is None,
            },
    {
        let cs = chars_of(rt_tables);
        let ghost f = |sp: (int, int)| rt_line_spec(cs@, sp);
        let mut pos: usize = 0;
        while pos < cs.len()
            invariant
                0 <= pos <= cs@.len(),
                cs@ == rt_tables@,
                f == (|sp: (int, int)| rt_line_spec(cs@, sp)),
                first_some(line_spans(cs@), f) == first_some(line_spans_from(cs@, pos as int), f),
            decreases cs@.len() - pos,
        {
            let e = find_newline(&cs, pos);
            proof {
                lemma_line_step(cs@, pos as int);
                lemma_first_some_step((pos as int, e as int), line_spans_from(cs@, e + 1), f);
            }
            let r = rt_line(&cs, rt_tables, pos, e);
            if r.is_some() {
                return r;
            }
            if e >= cs.len() {
                proof {
                    assert(line_spans_from(cs@, e + 1) =~= Seq::<(int, int)>::empty());
                    assert(line_spans_from(cs@, cs@.len() as int) =~= Seq::<(int, int)>::empty());
                }
                pos = cs.len();
            } else {
                pos = e + 1;
            }
        }
        proof {
            assert(line_spans_from(cs@, pos as int) =~= Seq::<(int, int)>::empty());
        }
        None
    }

    /// The active VPN interface: the first tun/wg entry of `/sys/class/net`
    /// that is up (or whose state cannot be read), else the first tun/wg table
    /// of `rt_tables` (`None` when that file could not be read).
    pub fn find_active_tun_iface(entries: &Vec<IfaceEntry>, rt_tables: Option<&str>) -> (r: Option<String>)
        ensures
            opt_seq(r) == active_tun_spec(entries_view(entries@), match rt_tables {
                Some(t) => Some(t@),
                None => None,
            }),
    {
        let ghost f = |e: (Seq<char>, Option<Seq<char>>)| tun_entry_spec(e);
        let ghost ev = entries_view(entries@);
        let mut i: usize = 0;
        proof {
            assert(ev.skip(0) =~= ev);
        }
        while i < entries.len()
            invariant
                0 <= i <= entries@.len(),
                ev == entries_view(entries@),
                f == (|e: (Seq<char>, Option<Seq<char>>)| tun_entry_spec(e)),
                first_some_of(ev, f) == first_some_of(ev.skip(i as int), f),
            decreases entries@.len() - i,
        {
            proof {
                lemma_first_some_of_step(ev, i as int, f);
            }
            let r = tun_entry(&entries[i]);
            if r.is_some() {
                return r;
            }
            i += 1;
        }
        proof {
            assert(ev.skip(i as int) =~= Seq::<(Seq<char>, Option<Seq<char>>)>::empty());
        }
        match rt_tables {
            Some(t) => match Self::find_vpn_from_rt_tables(t) {
                Some((name, _)) => Some(name),
                None => None,
            },
            None => None,
        }
    }

    /// The dedicated tethering interface names whose states
    /// `detect_hotspot_interfaces` takes, in order.
    pub fn hotspot_candidate_names() -> (r: Vec<String>)
        ensures
            texts(r@) == hotspot_candidates(),
            r@.len() == 7,
    {
        let cands = vec![lit("wlan1"), lit("ap0"), lit("softap0"), lit("swlan0"), lit("rndis0"), lit("usb0"), lit("bt-pan")];
        proof {
            assert(texts(cands@) =~= hotspot_candidates());
        }
        cands
    }

    /// Downstream hotspot interfaces from `/proc/net/route` (when readable)
    /// and the states of the dedicated candidates `wlan1`, `ap0`, `softap0`,
    /// `swlan0`, `rndis0`, `usb0`, `bt-pan` (in that order; `None` when
    /// unreadable).
    pub fn detect_hotspot_interfaces(route: Option<&str>, candidate_states: &Vec<Option<String>>) -> (r: Vec<String>)
        ensures
            texts(r@) == hotspots_spec(
                match route {
                    Some(t) => Some(t@),
                    None => None,
                },
                candidate_states@.map_values(|o: Option<String>| opt_seq(o)),
            ),
            !texts(r@).contains("wlan0"@),
    {
        proof {
            law_hotspots_never_wlan0(
                match route {
                    Some(t) => Some(t@),
                    None => None,
                },
                candidate_states@.map_values(|o: Option<String>| opt_seq(o)),
            );
        }
        let from_routes = match route {
            Some(t) => hot_from_routes(t),
            None => {
                let v: Vec<String> = Vec::new();
                proof {
                    assert(texts(v@) =~= Seq::<Seq<char>>::empty());
                }
                v
            },
        };
        if from_routes.len() > 0 {
            return from_routes;
        }
        let cands = Self::hotspot_candidate_names();
        let ghost sv = candidate_states@.map_values(|o: Option<String>| opt_seq(o));
        let mut out: Vec<String> = Vec::new();
        let mut i: usize = 0;
        proof {
            assert(texts(out@) =~= up_candidates(sv, 0));
        }
        while i < 7
            invariant
                0 <= i <= 7,
                texts(cands@) == hotspot_candidates(),
                cands@.len() == 7,
                sv == candidate_states@.map_values(|o: Option<String>| opt_seq(o)),
                texts(out@) == up_candidates(sv, i as int),
            decreases 7 - i,
        {
            if i < candidate_states.len() {
                match &candidate_states[i] {
                    Some(st) => {
                        if is_up_state(st.as_str()) {
                            let ghost o0 = out@;
                            out.push(cands[i].clone());
                            proof {
                                assert(texts(out@) =~= texts(o0).push(hotspot_candidates()[i as int]));
                            }
                        }
                    },
                    None => {},
                }
            }
            i += 1;
        }
        out
    }

    /// Display hint of an interface, and whether it looks like a downstream
    /// (tethering) interface; `route` is `/proc/net/route` when readable.
    pub fn iface_hint(name: &str, route: Option<&str>) -> (r: (bool, String))
        ensures
            (r.0, r.1@) == hint_spec(name@, match route {
                Some(t) => Some(t@),
                None => None,
            }),
    {
        let low = to_lower(name);
        Self::hint_of_lowered(low.as_str(), name, route)
    }

    /// Display hint of an interface whose lower-cased name is `low`, and
    /// whether it looks like a downstream (tethering) interface.
    pub fn hint_of_lowered(low: &str, name: &str, route: Option<&str>) -> (r: (bool, String))
        ensures
            (r.0, r.1@) == hint_lowered_spec(low@, name@, match route {
                Some(t) => Some(t@),
                None => None,
            }),
    {
        let n = low;
        if text_eq(n, "wlan1") || text_eq(n, "ap0") || text_eq(n, "softap0") || text_eq(n, "swlan0") || (
        text_starts_with(n, "wlan") && !text_eq(n, "wlan0")) {
            return (true, lit("可能是 Wi-Fi 热点"));
        }
        if text_eq(n, "rndis0") || text_eq(n, "usb0") || text_starts_with(n, "rndis") {
            return (true, lit("可能是 USB 共享"));
        }
        if text_eq(n, "bt-pan") || text_starts_with(n, "bnep") {
            return (true, lit("可能是蓝牙共享"));
        }
        match route {
            Some(t) => match route_hint(t, name) {
                Some(h) => (true, h),
                None => (false, String::new()),
            },
            None => (false, String::new()),
        }
    }

    /// The interface picker listing: every entry with its state (trimmed, or
    /// `unknown` when unreadable) and hint, recommended ones first, then by
    /// name. Whether an entry is managed is filled in by the caller.
    pub fn list_network_interfaces(entries: &Vec<IfaceEntry>, route: Option<&str>) -> (r: Vec<NetIfaceInfo>)
        ensures
            infos_view(r@) == sort_infos(entries_view(entries@).map_values(
                |e: (Seq<char>, Option<Seq<char>>)|
                    info_of(e, match route {
                        Some(t) => Some(t@),
                        None => None,
                    }),
            )),
            infos_ordered(infos_view(r@)),
            infos_view(r@).to_multiset() == entries_view(entries@).map_values(
                |e: (Seq<char>, Option<Seq<char>>)|
                    info_of(e, match route {
                        Some(t) => Some(t@),
                        None => None,
                    }),
            ).to_multiset(),
    {
        let ghost rv = match route {
            Some(t) => Some(t@),
            None => None,
        };
        let ghost unsorted = entries_view(entries@).map_values(|e: (Seq<char>, Option<Seq<char>>)| info_of(e, rv));
        let mut out: Vec<NetIfaceInfo> = Vec::new();
        let mut i: usize = 0;
        proof {
            assert(infos_view(out@) =~= sort_infos(unsorted.take(0)));
        }
        while i < entries.len()
            invariant
                0 <= i <= entries@.len(),
                rv == (match route {
                    Some(t) => Some(t@),
                    None => None,
                }),
                unsorted == entries_view(entries@).map_values(|e: (Seq<char>, Option<Seq<char>>)| info_of(e, rv)),
                infos_view(out@) == sort_infos(unsorted.take(i as int)),
            decreases entries@.len() - i,
        {
            let e = &entries[i];
            let operstate = match &e.operstate {
                Some(st) => trim_string(st.as_str()),
                None => lit("unknown"),
            };
            let (recommended, hint) = Self::iface_hint(e.name.as_str(), route);
            let item = NetIfaceInfo { name: e.name.clone(), operstate, recommended, hint, managed: false };
            proof {
                assert(info_view(item) == unsorted[i as int]);
                assert(unsorted.take(i + 1).drop_last() =~= unsorted.take(i as int));
                assert(unsorted.take(i + 1).last() == unsorted[i as int]);
            }
            insert_sorted_info(&mut out, item);
            i += 1;
        }
        proof {
            assert(unsorted.take(entries@.len() as int) =~= unsorted);
            lemma_sort_infos(unsorted);
            assert(unsorted =~= entries_view(entries@).map_values(
                |e: (Seq<char>, Option<Seq<char>>)|
                    info_of(e, match route {
                        Some(t) => Some(t@),
                        None => None,
                    }),
            ));
        }
        out
    }

    /// The table number that `rt_tables` gives to `iface`.
    pub fn get_table_for_iface(rt_tables: &str, iface: &str) -> (r: Option<u32>)
        ensures
            r == table_for_iface_spec(rt_tables@, iface@),
    {
        let cs = chars_of(rt_tables);
        let ic = chars_of(iface);
        let ghost f = |sp: (int, int)| table_line_spec(cs@, sp, iface@);
        let mut pos: usize = 0;
        while pos < cs.len()
            invariant
                0 <= pos <= cs@.len(),
                cs@ == rt_tables@,
                ic@ == iface@,
                f == (|sp: (int, int)| table_line_spec(cs@, sp, iface@)),
                first_some(line_spans(cs@), f) == first_some(line_spans_from(cs@, pos as int), f),
            decreases cs@.len() - pos,
        {
            let e = find_newline(&cs, pos);
            proof {
                lemma_line_step(cs@, pos as int);
                lemma_first_some_step((pos as int, e as int), line_spans_from(cs@, e + 1), f);
            }
            let r = table_line(&cs, pos, e, &ic);
            if r.is_some() {
                return r;
            }
            if e >= cs.len() {
                proof {
                    assert(line_spans_from(cs@, e + 1) =~= Seq::<(int, int)>::empty());
                    assert(line_spans_from(cs@, cs@.len() as int) =~= Seq::<(int, int)>::empty());
                }
                pos = cs.len();
            } else {
                pos = e + 1;
            }
        }
        proof {
            assert(line_spans_from(cs@, pos as int) =~= Seq::<(int, int)>::empty());
        }
        None
    }

    /// VPN DNS without spawning processes: the well-known Cloudflare resolver
    /// of the family.
    pub fn get_vpn_dns(v6: bool) -> (r: Option<String>)
        ensures
            match r {
                Some(s) => vpn_dns_spec(v6) == Some(s@),
                None => false,
            },
    {
        if v6 {
            Some(String::from_str("2606:4700:4700::1111"))
        } else {
            Some(String::from_str("1.1.1.1"))
        }
    }
}

proof fn lemma_routes_skip_wlan0(cs: Seq<char>, spans: Seq<(int, int)>)
    ensures
        !hot_from_spans(cs, spans).contains("wlan0"@),
    decreases spans.len(),
{
    if spans.len() > 0 {
        lemma_routes_skip_wlan0(cs, spans.drop_last());
        let prev = hot_from_spans(cs, spans.drop_last());
        match hot_line_spec(cs, spans.last()) {
            Some(i) => {
                if !prev.contains(i) {
                    assert forall|k: int| 0 <= k < prev.push(i).len() implies prev.push(i)[k] != "wlan0"@ by {
                        if k < prev.len() {
                            assert(prev[k] == prev.push(i)[k]);
                        }
                    }
                }
            },
            None => {},
        }
    }
}

proof fn lemma_candidates_not_wlan0(states: Seq<Option<Seq<char>>>, n: int)
    requires
        n <= 7,
    ensures
        !up_candidates(states, n).contains("wlan0"@),
    decreases n,
{
    if n > 0 {
        lemma_candidates_not_wlan0(states, n - 1);
        let prev = up_candidates(states, n - 1);
        reveal_strlit("wlan0");
        reveal_strlit("wlan1");
        reveal_strlit("ap0");
        reveal_strlit("softap0");
        reveal_strlit("swlan0");
        reveal_strlit("rndis0");
        reveal_strlit("usb0");
        reveal_strlit("bt-pan");
        let c = hotspot_candidates()[n - 1];
        assert(c != "wlan0"@) by {
            if n - 1 == 0 {
                assert(c[4] != "wlan0"@[4]);
            } else if n - 1 == 3 {
                assert(c[0] != "wlan0"@[0]);
            } else {
                assert(c.len() != "wlan0"@.len() || c[0] != "wlan0"@[0]);
            }
        }
        if n - 1 < states.len() && states[n - 1] is Some && up_state(states[n - 1]->0) {
            assert forall|k: int| 0 <= k < prev.push(c).len() implies prev.push(c)[k] != "wlan0"@ by {
                if k < prev.len() {
                    assert(prev[k] == prev.push(c)[k]);
                }
            }
        }
    }
}

/// `wlan0` is never taken for a downstream hotspot interface: in station
/// mode it is the upstream uplink, not the access point.
pub proof fn law_hotspots_never_wlan0(route: Option<Seq<char>>, states: Seq<Option<Seq<char>>>)
    ensures
        !hotspots_spec(route, states).contains("wlan0"@),
{
    match route {
        Some(t) => lemma_routes_skip_wlan0(t, line_spans(t)),
        None => {},
    }
    lemma_candidates_not_wlan0(states, 7);
}

proof fn lemma_hot_from_spans_has(cs: Seq<char>, spans: Seq<(int, int)>, k: int, name: Seq<char>)
    requires
        0 <= k < spans.len(),
        hot_line_spec(cs, spans[k]) == Some(name),
    ensures
        hot_from_spans(cs, spans).contains(name),
    decreases spans.len(),
{
    let prev = hot_from_spans(cs, spans.drop_last());
    if k == spans.len() - 1 {
        if !prev.contains(name) {
            assert(prev.push(name)[prev.len() as int] == name);
        }
    } else {
        assert(spans.drop_last()[k] == spans[k]);
        lemma_hot_from_spans_has(cs, spans.drop_last(), k, name);
        let j = choose|j: int| 0 <= j < prev.len() && prev[j] == name;
        match hot_line_spec(cs, spans.last()) {
            Some(i) => if !prev.contains(i) {
                assert(prev.push(i)[j] == name);
            },
            None => {},
        }
    }
}

/// A route line for one of the tethering subnets 192.168.43.0, 192.168.42.0
/// or 192.168.44.0 (`002BA8C0`, `002AA8C0`, `002CA8C0` in `/proc/net/route`)
/// on an interface other than `wlan0` makes that interface a detected
/// hotspot interface.
pub proof fn law_tethering_route_detected(t: Seq<char>, states: Seq<Option<Seq<char>>>, k: int)
    requires
        0 <= k < line_spans(t).len(),
        ({
            let sp = line_spans(t)[k];
            let fs = field_spans(t, sp.0, sp.1);
            &&& fs.len() >= 2
            &&& span_text(t, fs[1]) == "002BA8C0"@ || span_text(t, fs[1]) == "002AA8C0"@ || span_text(t, fs[1])
                == "002CA8C0"@
            &&& span_text(t, fs[0]) != "wlan0"@
        }),
    ensures
        ({
            let sp = line_spans(t)[k];
            let fs = field_spans(t, sp.0, sp.1);
            hotspots_spec(Some(t), states).contains(span_text(t, fs[0]))
        }),
{
    let spans = line_spans(t);
    let sp = spans[k];
    let fs = field_spans(t, sp.0, sp.1);
    let name = span_text(t, fs[0]);
    assert(hot_line_spec(t, sp) == Some(name));
    lemma_hot_from_spans_has(t, spans, k, name);
    let fr = hot_from_spans(t, spans);
    assert(fr.len() > 0);
}

/// A listing in order: no entry should come before an earlier one.
pub open spec fn infos_ordered(l: Seq<IfaceInfoView>) -> bool {
    forall|i: int, j: int| 0 <= i < j < l.len() ==> !info_before(#[trigger] l[j], #[trigger] l[i])
}

proof fn lemma_before_irreflexive(a: IfaceInfoView)
    ensures
        !info_before(a, a),
{
    lemma_lt_irreflexive(a.name);
}

proof fn lemma_before_transitive(a: IfaceInfoView, b: IfaceInfoView, c: IfaceInfoView)
    requires
        info_before(a, b),
        info_before(b, c),
    ensures
        info_before(a, c),
{
    if a.recommended == b.recommended && b.recommended == c.recommended {
        lemma_lt_transitive(a.name, b.name, c.name);
    }
}

proof fn lemma_insert_pos(l: Seq<IfaceInfoView>, x: IfaceInfoView)
    ensures
        0 <= insert_pos(l, x) <= l.len(),
        forall|k: int| 0 <= k < insert_pos(l, x) ==> !info_before(x, #[trigger] l[k]),
        insert_pos(l, x) < l.len() ==> info_before(x, l[insert_pos(l, x)]),
    decreases l.len(),
{
    if l.len() > 0 && !info_before(x, l[0]) {
        let t = l.drop_first();
        lemma_insert_pos(t, x);
        assert forall|k: int| 0 <= k < insert_pos(l, x) implies !info_before(x, #[trigger] l[k]) by {
            if k > 0 {
                assert(l[k] == t[k - 1]);
            }
        }
        if insert_pos(l, x) < l.len() {
            assert(l[insert_pos(l, x)] == t[insert_pos(t, x)]);
        }
    }
}

proof fn lemma_insert_ordered(l: Seq<IfaceInfoView>, x: IfaceInfoView)
    requires
        infos_ordered(l),
    ensures
        infos_ordered(l.insert(insert_pos(l, x), x)),
{
    lemma_insert_pos(l, x);
    let p = insert_pos(l, x);
    let n = l.insert(p, x);
    assert forall|i: int, j: int| 0 <= i < j < n.len() implies !info_before(#[trigger] n[j], #[trigger] n[i]) by {
        if j < p {
            assert(n[i] == l[i] && n[j] == l[j]);
        } else if j == p {
            assert(n[i] == l[i] && n[j] == x);
        } else if i > p {
            assert(n[i] == l[i - 1] && n[j] == l[j - 1]);
        } else if i == p {
            assert(n[i] == x && n[j] == l[j - 1]);
            if info_before(l[j - 1], x) {
                lemma_before_transitive(l[j - 1], x, l[p]);
                if j - 1 == p {
                    lemma_before_irreflexive(l[p]);
                }
            }
        } else {
            assert(n[i] == l[i] && n[j] == l[j - 1]);
        }
    }
}

/// The listing order sorts: each listing is in order and holds the same entries.
proof fn lemma_sort_infos(s: Seq<IfaceInfoView>)
    ensures
        infos_ordered(sort_infos(s)),
        sort_infos(s).to_multiset() == s.to_multiset(),
    decreases s.len(),
{
    broadcast use vstd::seq_lib::to_multiset_insert, vstd::seq_lib::to_multiset_build;

    if s.len() > 0 {
        let l = sort_infos(s.drop_last());
        lemma_sort_infos(s.drop_last());
        lemma_insert_ordered(l, s.last());
        lemma_insert_pos(l, s.last());
        assert(s.drop_last().push(s.last()) =~= s);
    } else {
        assert(sort_infos(s) =~= s);
    }
}

/// The interface picker lists recommended interfaces first and, among
/// equally recommended ones, by name; it lists every interface it was given,
/// each as often as given.
pub proof fn law_interface_listing_order(entries: Seq<IfaceInfoView>)
    ensures
        forall|i: int, j: int|
            0 <= i < j < sort_infos(entries).len() ==> {
                let a = #[trigger] sort_infos(entries)[i];
                let b = #[trigger] sort_infos(entries)[j];
                (a.recommended && !b.recommended) || (a.recommended == b.recommended && !seq_lt(b.name, a.name))
            },
        sort_infos(entries).to_multiset() == entries.to_multiset(),
{
    lemma_sort_infos(entries);
    let l = sort_infos(entries);
    assert forall|i: int, j: int| 0 <= i < j < l.len() implies {
        let a = #[trigger] l[i];
        let b = #[trigger] l[j];
        (a.recommended && !b.recommended) || (a.recommended == b.recommended && !seq_lt(b.name, a.name))
    } by {
        assert(!info_before(l[j], l[i]));
    }
}

} // verus!
