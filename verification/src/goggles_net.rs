//! The goggles' "Liveview sharing" link: RNDIS over a regular USB port, with
//! this board as a plain network client.
//!
//! It differs from the USB accessory path in USB role, not just in wire
//! protocol: the goggles enumerate as a network device, and the capture talks
//! UDP to them once the kernel has brought the interface up.
use vstd::prelude::*;

use crate::cli::{opt_view, NetArgs, NetArgsView};

pub mod capture;
pub mod handshake;
pub mod iface;
pub mod video;

verus! {

/// DJI.
pub const DJI_VID: u16 = 0x2ca3;

/// The goggles as an RNDIS network device.
pub const RNDIS_PID: u16 = 0x0020;

/// How long to wait for the interface, in seconds.
pub const WAIT_SECS: u64 = 30;

/// How long to wait for the goggles to answer, in milliseconds.
pub const HANDSHAKE_MS: u64 = 5_000;

/// How the link is captured.
pub struct Opts {
    /// The interface; `None` to find it by its USB ids.
    pub iface: Option<String>,
    /// The goggles' address and port.
    pub peer: String,
    /// This board's address on the link.
    pub ip: String,
    pub wait_secs: u64,
    pub handshake_ms: u64,
    /// Leave once the session is open.
    pub probe_only: bool,
    /// Log what is received.
    pub hex_rx: bool,
    /// Where to keep a copy of what is received.
    pub dump: Option<String>,
}

/// How the link is captured, as plain values.
#[verifier::ext_equal]
pub struct OptsView {
    pub iface: Option<Seq<char>>,
    pub peer: Seq<char>,
    pub ip: Seq<char>,
    pub wait_secs: u64,
    pub handshake_ms: u64,
    pub probe_only: bool,
    pub hex_rx: bool,
    pub dump: Option<Seq<char>>,
}

impl View for Opts {
    type V = OptsView;

    open spec fn view(&self) -> OptsView {
        OptsView {
            iface: opt_view(self.iface),
            peer: self.peer@,
            ip: self.ip@,
            wait_secs: self.wait_secs,
            handshake_ms: self.handshake_ms,
            probe_only: self.probe_only,
            hex_rx: self.hex_rx,
            dump: opt_view(self.dump),
        }
    }
}

/// `first` if it is there, else `second`.
pub open spec fn or_else<T>(first: Option<T>, second: T) -> T {
    match first {
        Some(t) => t,
        None => second,
    }
}

impl OptsView {
    /// What the environment says, and the default where it says nothing: the
    /// interface that `GOGGLES_NET_IFACE` names and the address in
    /// `GOGGLES_NET_PEER`.
    pub open spec fn from_env(iface: Option<Seq<char>>, peer: Option<Seq<char>>) -> OptsView {
        OptsView {
            iface,
            peer: or_else(peer, "192.168.60.2:9003"@),
            ip: "192.168.60.1/24"@,
            wait_secs: WAIT_SECS,
            handshake_ms: HANDSHAKE_MS,
            probe_only: false,
            hex_rx: false,
            dump: None,
        }
    }

    /// With what the command line says about it.
    pub open spec fn with_args(self, args: NetArgsView) -> OptsView {
        OptsView {
            iface: if args.iface is Some {
                args.iface
            } else {
                self.iface
            },
            peer: or_else(args.peer, self.peer),
            ip: or_else(args.ip, self.ip),
            wait_secs: or_else(args.wait_secs, self.wait_secs),
            handshake_ms: or_else(args.handshake_ms, self.handshake_ms),
            probe_only: self.probe_only || args.probe,
            hex_rx: self.hex_rx || args.hex_rx,
            dump: if args.dump is Some {
                args.dump
            } else {
                self.dump
            },
        }
    }
}

impl Opts {
    /// What the environment says, and the default where it says nothing.
    /// `peer` is there only if it is an address and a port.
    pub fn from_env(iface: Option<String>, peer: Option<String>) -> (opts: Opts)
        ensures
            opts@ == OptsView::from_env(opt_view(iface), opt_view(peer)),
    {
        Opts {
            iface,
            peer: match peer {
                Some(p) => p,
                None => "192.168.60.2:9003".to_owned(),
            },
            ip: "192.168.60.1/24".to_owned(),
            wait_secs: WAIT_SECS,
            handshake_ms: HANDSHAKE_MS,
            probe_only: false,
            hex_rx: false,
            dump: None,
        }
    }

    /// With what the command line says about it.
    pub fn with_args(self, args: NetArgs) -> (opts: Opts)
        ensures
            opts@ == self@.with_args(args@),
    {
        Opts {
            iface: match args.iface {
                Some(i) => Some(i),
                None => self.iface,
            },
            peer: match args.peer {
                Some(p) => p,
                None => self.peer,
            },
            ip: match args.ip {
                Some(ip) => ip,
                None => self.ip,
            },
            wait_secs: match args.wait_secs {
                Some(n) => n,
                None => self.wait_secs,
            },
            handshake_ms: match args.handshake_ms {
                Some(n) => n,
                None => self.handshake_ms,
            },
            probe_only: self.probe_only || args.probe,
            hex_rx: self.hex_rx || args.hex_rx,
            dump: match args.dump {
                Some(d) => Some(d),
                None => self.dump,
            },
        }
    }
}

/// Where neither the environment nor the command line says anything: the
/// goggles' usual address, half a minute for the interface and five seconds for
/// an answer.
pub proof fn law_link_defaults(iface: Option<Seq<char>>, peer: Seq<char>)
    ensures
        ({
            let o = OptsView::from_env(iface, None);
            &&& o.iface == iface
            &&& o.peer == "192.168.60.2:9003"@ && o.ip == "192.168.60.1/24"@
            &&& o.wait_secs == 30 && o.handshake_ms == 5_000
            &&& !o.probe_only && !o.hex_rx && o.dump is None
            &&& OptsView::from_env(iface, Some(peer)) == (OptsView { peer, ..o })
        }),
{
}

/// What the command line says goes before what was there; what it does not say
/// stays.
pub proof fn law_command_line_goes_first(o: OptsView, a: NetArgsView)
    ensures
        ({
            let r = o.with_args(a);
            &&& a.iface is Some ==> r.iface == a.iface
            &&& a.iface is None ==> r.iface == o.iface
            &&& a.peer matches Some(p) ==> r.peer == p
            &&& a.peer is None ==> r.peer == o.peer
            &&& a.ip matches Some(p) ==> r.ip == p
            &&& a.ip is None ==> r.ip == o.ip
            &&& a.wait_secs matches Some(n) ==> r.wait_secs == n
            &&& a.wait_secs is None ==> r.wait_secs == o.wait_secs
            &&& a.handshake_ms matches Some(n) ==> r.handshake_ms == n
            &&& a.handshake_ms is None ==> r.handshake_ms == o.handshake_ms
            &&& a.dump is Some ==> r.dump == a.dump
            &&& a.dump is None ==> r.dump == o.dump
            &&& r.probe_only <==> o.probe_only || a.probe
            &&& r.hex_rx <==> o.hex_rx || a.hex_rx
        }),
{
}

} // verus!
