# vpn_share_proxy

Policy core of an Android hotspot → VPN transparent gateway, verified with
Verus. The daemon (`vspd`) routes hotspot clients through the active VPN
tunnel with netlink FIB rules and netfilter chains; `vsp-ctl` talks to it
over newline-delimited JSON on the abstract socket `@vpn-share-proxy.sock`.

## Layout

- `src/` — the verified library: the daemon's rules, parsers, plans and
  state machines, with contracts and laws proved by Verus.
  - `android.rs` — reading build properties, `rt_tables`, `/proc/net/route`
    and the interface list (from their contents).
  - `routing.rs` — FIB rule requests of an install and of the flush, their
    netlink encoding, acknowledgement parsing.
  - `firewall.rs` — netfilter plans (helper invocations, in order).
  - `engine.rs` — the reconcile state machine (desired state, leave, enter).
  - `device.rs` — ARP scanning and hotspot client sessions.
  - `ipc.rs`, `envelope.rs` — control protocol decisions and envelopes.
  - `netlink.rs` — classification of kernel notifications.
  - `types.rs`, `fingerprint.rs`, `config.rs` — configuration, its
    change-detection fingerprint, where it is stored.
  - `text.rs`, `strset.rs`, `bytes.rs`, `keyed.rs` — text scanning, string
    sets, byte order, keyed sequences.
- `app/` — the program around it: file and socket I/O, running helper
  binaries, netlink sockets, the tokio event loop, JSON (serde) forms of the
  library's types. `vspd` and `vsp-ctl` are one binary, chosen by its name.
- `tests/` — tests of the library on concrete values.
