//! Kernel route/neighbour notifications: what a batch of netlink messages
//! means for the daemon.
use vstd::prelude::*;
use crate::bytes::{ByteOrder, read_u16, read_u32, u16_of, u32_of};

verus! {

/// What changed in the kernel.
#[derive(Clone, Copy, PartialEq, Eq, Debug, Structural)]
pub enum NetlinkEvent {
    /// Link, address or route changed: the rules may need a reconcile.
    NetworkChanged,
    /// The neighbour table changed: refresh the device sessions only.
    NeighborChanged,
}

/// The daemon's work once a debounced change has settled.
pub struct SettledWork {
    /// Reconcile the installed rules (first).
    pub reconcile: bool,
    /// Refresh the device sessions and announce arrivals and departures.
    pub refresh_devices: bool,
}

/// A network change is followed by a reconcile, then a device refresh; a
/// neighbour change by a device refresh alone.
pub fn settled_work(ev: NetlinkEvent) -> (r: SettledWork)
    ensures
        r.reconcile == (ev == NetlinkEvent::NetworkChanged),
        r.refresh_devices,
{
    match ev {
        NetlinkEvent::NetworkChanged => SettledWork { reconcile: true, refresh_devices: true },
        NetlinkEvent::NeighborChanged => SettledWork { reconcile: false, refresh_devices: true },
    }
}

pub const RTM_NEWLINK: u16 = 16;
pub const RTM_DELLINK: u16 = 17;
pub const RTM_NEWADDR: u16 = 20;
pub const RTM_DELADDR: u16 = 21;
pub const RTM_NEWROUTE: u16 = 24;
pub const RTM_DELROUTE: u16 = 25;
pub const RTM_NEWNEIGH: u16 = 28;
pub const RTM_DELNEIGH: u16 = 29;

pub open spec fn is_net_type(t: u16) -> bool {
    t == RTM_NEWLINK || t == RTM_DELLINK || t == RTM_NEWADDR || t == RTM_DELADDR || t == RTM_NEWROUTE
        || t == RTM_DELROUTE
}

pub open spec fn is_neigh_type(t: u16) -> bool {
    t == RTM_NEWNEIGH || t == RTM_DELNEIGH
}

/// `n` rounded up to a multiple of four (`NLMSG_ALIGN`).
pub open spec fn align4(n: int) -> int {
    (n + 3) / 4 * 4
}

/// Which kinds of change the well-formed messages from `off` on report. A
/// message whose length is under a header or runs past the buffer ends the walk.
pub open spec fn scan_spec(o: ByteOrder, b: Seq<u8>, off: int) -> (bool, bool)
    decreases b.len() - off,
{
    if off < 0 || off + 16 > b.len() {
        (false, false)
    } else {
        let len = u32_of(o, b[off], b[off + 1], b[off + 2], b[off + 3]) as int;
        if len < 16 || off + len > b.len() {
            (false, false)
        } else {
            let t = u16_of(o, b[off + 4], b[off + 5]);
            let next = off + align4(len);
            let rest = if next > b.len() {
                (false, false)
            } else {
                proof {
                    assert(align4(len) >= len) by (nonlinear_arith)
                        requires
                            len >= 16,
                    ;
                }
                scan_spec(o, b, next)
            };
            (is_net_type(t) || rest.0, is_neigh_type(t) || rest.1)
        }
    }
}

/// `(network changed, neighbours changed)` for a received batch; a
/// non-empty batch that names neither still counts as a network change.
pub open spec fn classify_spec(o: ByteOrder, b: Seq<u8>) -> (bool, bool) {
    let (net, neigh) = scan_spec(o, b, 0);
    if !net && !neigh && b.len() > 0 {
        (true, false)
    } else {
        (net, neigh)
    }
}

/// Classifies a batch of netlink messages.
pub fn classify_nlmsgs(o: ByteOrder, buf: &Vec<u8>) -> (r: (bool, bool))
    ensures
        r == classify_spec(o, buf@),
{
    let mut net = false;
    let mut neigh = false;
    let mut off: usize = 0;
    let mut go = true;
    while go && buf.len() >= 16 && off <= buf.len() - 16
        invariant
            0 <= off <= buf@.len(),
            !go ==> scan_spec(o, buf@, off as int) == (false, false),
            scan_spec(o, buf@, 0) == (net || scan_spec(o, buf@, off as int).0, neigh || scan_spec(
                o,
                buf@,
                off as int,
            ).1),
        decreases buf@.len() - off, if go { 1int } else { 0int },
    {
        let len = read_u32(o, buf[off], buf[off + 1], buf[off + 2], buf[off + 3]) as usize;
        if len < 16 || len > buf.len() - off {
            go = false;
        } else {
            let t = read_u16(o, buf[off + 4], buf[off + 5]);
            if t == RTM_NEWLINK || t == RTM_DELLINK || t == RTM_NEWADDR || t == RTM_DELADDR || t
                == RTM_NEWROUTE || t == RTM_DELROUTE {
                net = true;
            } else if t == RTM_NEWNEIGH || t == RTM_DELNEIGH {
                neigh = true;
            }
            let pad = (4 - len % 4) % 4;
            proof {
                assert(len + pad == align4(len as int)) by (nonlinear_arith)
                    requires
                        pad == (4 - len % 4) % 4,
                ;
            }
            if pad > buf.len() - off - len {
                off = buf.len();
            } else {
                off = off + len + pad;
            }
        }
    }
    if !net && !neigh && buf.len() > 0 {
        net = true;
    }
    (net, neigh)
}

/// A batch of one well-formed message is a network change when the message
/// is a link, address or route notification (types 16, 17, 20, 21, 24,
/// 25); a neighbour notification (types 28, 29) is a neighbour change and
/// nothing else; any other message still counts as a network change.
pub proof fn law_single_message_kind(o: ByteOrder, b: Seq<u8>)
    requires
        b.len() >= 16,
        u32_of(o, b[0], b[1], b[2], b[3]) as int == b.len(),
    ensures
        ({
            let t = u16_of(o, b[4], b[5]);
            classify_spec(o, b) == if t == 28 || t == 29 {
                (false, true)
            } else {
                (true, false)
            }
        }),
{
    let len = b.len() as int;
    let next = align4(len);
    assert(align4(len) >= len) by (nonlinear_arith)
        requires
            len >= 16,
    ;
    if next <= b.len() {
        assert(scan_spec(o, b, next) == (false, false));
    }
}

/// A batch whose first message is a well-formed link, address or route
/// notification is a network change, whatever follows it.
pub proof fn law_network_message_first(o: ByteOrder, b: Seq<u8>)
    requires
        b.len() >= 16,
        16 <= u32_of(o, b[0], b[1], b[2], b[3]) as int <= b.len(),
        ({
            let t = u16_of(o, b[4], b[5]);
            t == 16 || t == 17 || t == 20 || t == 21 || t == 24 || t == 25
        }),
    ensures
        classify_spec(o, b).0,
{
}

proof fn lemma_scan_shift(o: ByteOrder, a: Seq<u8>, b: Seq<u8>, off: int)
    requires
        0 <= off,
    ensures
        scan_spec(o, a + b, a.len() + off) == scan_spec(o, b, off),
    decreases b.len() - off,
{
    let s = a + b;
    let n = a.len() as int;
    if off + 16 <= b.len() {
        assert(s[n + off] == b[off] && s[n + off + 1] == b[off + 1] && s[n + off + 2] == b[off + 2] && s[n + off + 3]
            == b[off + 3] && s[n + off + 4] == b[off + 4] && s[n + off + 5] == b[off + 5]);
        let len = u32_of(o, b[off], b[off + 1], b[off + 2], b[off + 3]) as int;
        if len >= 16 && off + len <= b.len() {
            let next = off + align4(len);
            assert(align4(len) >= len) by (nonlinear_arith)
                requires
                    len >= 16,
            ;
            if next <= b.len() {
                lemma_scan_shift(o, a, b, next);
                assert(n + off + align4(len) == n + next);
            }
        }
    }
}

/// A well-formed message in front of a batch adds its own kind: the batch
/// then reports a neighbour change exactly when the message is a neighbour
/// notification (types 28, 29) or the rest reports one, and a network
/// change whenever the message is a link, address or route notification
/// (types 16, 17, 20, 21, 24, 25).
pub proof fn law_message_prefix(o: ByteOrder, a: Seq<u8>, b: Seq<u8>)
    requires
        a.len() >= 16,
        a.len() % 4 == 0,
        u32_of(o, a[0], a[1], a[2], a[3]) as int == a.len(),
    ensures
        ({
            let t = u16_of(o, a[4], a[5]);
            &&& classify_spec(o, a + b).1 == ((t == 28 || t == 29) || classify_spec(o, b).1)
            &&& (t == 16 || t == 17 || t == 20 || t == 21 || t == 24 || t == 25) ==> classify_spec(o, a + b).0
        }),
{
    let s = a + b;
    let len = a.len() as int;
    assert(s[0] == a[0] && s[1] == a[1] && s[2] == a[2] && s[3] == a[3] && s[4] == a[4] && s[5] == a[5]);
    assert(align4(len) == len) by (nonlinear_arith)
        requires
            len % 4 == 0,
            len >= 16,
    ;
    lemma_scan_shift(o, a, b, 0);
}

} // verus!
