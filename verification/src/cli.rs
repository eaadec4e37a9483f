//! The command line, and what the program decides from it and from its
//! environment before it starts capturing.
use vstd::prelude::*;

use crate::capture::options::{Options, OptionsView};
use crate::gadget::steps;
use crate::text::{chars_of, parse_number, same, same_lower, split_words, trim};
use crate::text::{lemma_first_word, lower, number_of, trim_spec, views, words};

verus! {

/// What the command line says about the network link; `None` where it leaves
/// the default alone.
pub struct NetArgs {
    pub iface: Option<String>,
    pub peer: Option<String>,
    pub ip: Option<String>,
    pub wait_secs: Option<u64>,
    pub handshake_ms: Option<u64>,
    pub probe: bool,
    pub hex_rx: bool,
    pub dump: Option<String>,
}

/// The characters of an optional string.
pub open spec fn opt_view(s: Option<String>) -> Option<Seq<char>> {
    match s {
        Some(t) => Some(t@),
        None => None,
    }
}

/// What the command line says about the network link, as plain values.
#[verifier::ext_equal]
pub struct NetArgsView {
    pub iface: Option<Seq<char>>,
    pub peer: Option<Seq<char>>,
    pub ip: Option<Seq<char>>,
    pub wait_secs: Option<u64>,
    pub handshake_ms: Option<u64>,
    pub probe: bool,
    pub hex_rx: bool,
    pub dump: Option<Seq<char>>,
}

impl View for NetArgs {
    type V = NetArgsView;

    open spec fn view(&self) -> NetArgsView {
        NetArgsView {
            iface: opt_view(self.iface),
            peer: opt_view(self.peer),
            ip: opt_view(self.ip),
            wait_secs: self.wait_secs,
            handshake_ms: self.handshake_ms,
            probe: self.probe,
            hex_rx: self.hex_rx,
            dump: opt_view(self.dump),
        }
    }
}

/// The command line.
pub struct Cli {
    pub out_path: String,
    pub out_path_given: bool,
    pub opt: Options,
    pub cleanup: bool,
    pub list_udc: bool,
    pub net: NetArgs,
}

/// The command line, as plain values.
#[verifier::ext_equal]
pub struct CliView {
    pub out_path: Seq<char>,
    pub out_path_given: bool,
    pub opt: OptionsView,
    pub cleanup: bool,
    pub list_udc: bool,
    pub net: NetArgsView,
}

impl View for Cli {
    type V = CliView;

    open spec fn view(&self) -> CliView {
        CliView {
            out_path: self.out_path@,
            out_path_given: self.out_path_given,
            opt: self.opt@,
            cleanup: self.cleanup,
            list_udc: self.list_udc,
            net: self.net@,
        }
    }
}

impl CliView {
    /// An empty command line.
    pub open spec fn empty() -> CliView {
        CliView {
            out_path: "./goggles_feed.h264"@,
            out_path_given: false,
            opt: OptionsView::standard(),
            cleanup: false,
            list_udc: false,
            net: NetArgsView {
                iface: None,
                peer: None,
                ip: None,
                wait_secs: None,
                handshake_ms: None,
                probe: false,
                hex_rx: false,
                dump: None,
            },
        }
    }

    /// With one more flag; `None` if `a` is not a flag.
    pub open spec fn with_flag(self, a: Seq<char>) -> Option<CliView> {
        if a == "--cleanup"@ {
            Some(CliView { cleanup: true, ..self })
        } else if a == "--list-udc"@ {
            Some(CliView { list_udc: true, ..self })
        } else if a == "--probe"@ {
            Some(CliView { net: NetArgsView { probe: true, ..self.net }, ..self })
        } else if a == "--hex-rx"@ {
            Some(CliView { net: NetArgsView { hex_rx: true, ..self.net }, ..self })
        } else {
            None
        }
    }

    /// With option `a` set to `v`; `None` if the option does not take that.
    pub open spec fn with_value(self, a: Seq<char>, v: Seq<char>) -> Option<CliView> {
        if a == "--udc"@ {
            Some(CliView { opt: OptionsView { udc: v, ..self.opt }, ..self })
        } else if a == "--gadget"@ {
            Some(CliView { opt: OptionsView { gadget_name: v, ..self.opt }, ..self })
        } else if a == "--mount"@ {
            Some(CliView { opt: OptionsView { mount_point: v, ..self.opt }, ..self })
        } else if a == "--ffs"@ {
            Some(CliView { opt: OptionsView { ffs_path: v, ..self.opt }, ..self })
        } else if a == "--gadget-dir"@ {
            Some(CliView { opt: OptionsView { gadget_dir: v, ..self.opt }, ..self })
        } else if a == "--iface"@ {
            Some(CliView { net: NetArgsView { iface: Some(v), ..self.net }, ..self })
        } else if a == "--peer"@ {
            Some(CliView { net: NetArgsView { peer: Some(v), ..self.net }, ..self })
        } else if a == "--ip"@ {
            Some(CliView { net: NetArgsView { ip: Some(v), ..self.net }, ..self })
        } else if a == "--dump"@ {
            Some(CliView { net: NetArgsView { dump: Some(v), ..self.net }, ..self })
        } else {
            match number_of(v, false) {
                Some(n) => if n > u64::MAX {
                    None
                } else if a == "--wait"@ {
                    Some(CliView { net: NetArgsView { wait_secs: Some(n as u64), ..self.net }, ..self })
                } else {
                    Some(
                        CliView {
                            net: NetArgsView { handshake_ms: Some(n as u64), ..self.net },
                            ..self
                        },
                    )
                },
                None => None,
            }
        }
    }
}

/// `a` is an option that takes a value.
pub open spec fn takes_value(a: Seq<char>) -> bool {
    ||| a == "--udc"@
    ||| a == "--gadget"@
    ||| a == "--mount"@
    ||| a == "--ffs"@
    ||| a == "--gadget-dir"@
    ||| a == "--iface"@
    ||| a == "--peer"@
    ||| a == "--ip"@
    ||| a == "--dump"@
    ||| a == "--wait"@
    ||| a == "--handshake-ms"@
}

/// What the arguments ask for.
pub enum Parsed {
    /// Run with this command line.
    Run(Cli),
    /// Show how to use the program, and succeed.
    Help,
    /// Print the version, and succeed.
    Version,
    /// Show how to use the program, and fail.
    Misuse,
}

/// What the arguments ask for, as plain values.
#[verifier::ext_equal]
pub enum ParsedView {
    Run(CliView),
    Help,
    Version,
    Misuse,
}

impl View for Parsed {
    type V = ParsedView;

    open spec fn view(&self) -> ParsedView {
        match self {
            Parsed::Run(cli) => ParsedView::Run(cli@),
            Parsed::Help => ParsedView::Help,
            Parsed::Version => ParsedView::Version,
            Parsed::Misuse => ParsedView::Misuse,
        }
    }
}

impl Parsed {
    /// The exit code, if there is nothing to run.
    pub fn exit_code(&self) -> (code: Option<i32>)
        ensures
            code == self@.spec_exit_code(),
    {
        match self {
            Parsed::Run(_) => None,
            Parsed::Help => Some(0),
            Parsed::Version => Some(0),
            Parsed::Misuse => Some(1),
        }
    }
}

impl ParsedView {
    /// The exit code, if there is nothing to run: help and version succeed,
    /// misuse fails.
    pub open spec fn spec_exit_code(self) -> Option<i32> {
        match self {
            ParsedView::Run(c) => None,
            ParsedView::Help => Some(0i32),
            ParsedView::Version => Some(0i32),
            ParsedView::Misuse => Some(1i32),
        }
    }
}

/// What the arguments from `i` on ask for, after `c`. They are read from left
/// to right; the first that asks for help or the version, or that is not
/// understood, decides. What is not an option is the output; the last one
/// counts.
pub open spec fn parsed_from(args: Seq<Seq<char>>, i: int, c: CliView) -> ParsedView
    decreases args.len() - i,
{
    if i >= args.len() {
        ParsedView::Run(c)
    } else {
        let a = args[i];
        match c.with_flag(a) {
            Some(next) => parsed_from(args, i + 1, next),
            None => if takes_value(a) && i + 1 < args.len() {
                match c.with_value(a, args[i + 1]) {
                    Some(next) => parsed_from(args, i + 2, next),
                    None => ParsedView::Misuse,
                }
            } else if a == "-h"@ || a == "--help"@ {
                ParsedView::Help
            } else if a == "-V"@ || a == "--version"@ {
                ParsedView::Version
            } else if a.len() > 0 && a[0] == '-' {
                ParsedView::Misuse
            } else {
                parsed_from(args, i + 1, CliView { out_path: a, out_path_given: true, ..c })
            },
        }
    }
}

/// What the arguments ask for.
pub open spec fn parsed(args: Seq<Seq<char>>) -> ParsedView {
    parsed_from(args, 0, CliView::empty())
}

impl Cli {
    /// An empty command line.
    pub fn new() -> (cli: Cli)
        ensures
            cli@ == CliView::empty(),
    {
        let cli = Cli {
            out_path: "./goggles_feed.h264".to_owned(),
            out_path_given: false,
            opt: Options::default(),
            cleanup: false,
            list_udc: false,
            net: NetArgs {
                iface: None,
                peer: None,
                ip: None,
                wait_secs: None,
                handshake_ms: None,
                probe: false,
                hex_rx: false,
                dump: None,
            },
        };
        cli
    }

    /// Set a flag; `false` if `a` is not one.
    fn set_flag(&mut self, a: &str) -> (known: bool)
        ensures
            match old(self)@.with_flag(a@) {
                Some(next) => known && final(self)@ == next,
                None => !known && *final(self) == *old(self),
            },
    {
        if same(a, "--cleanup") {
            self.cleanup = true;
        } else if same(a, "--list-udc") {
            self.list_udc = true;
        } else if same(a, "--probe") {
            self.net.probe = true;
        } else if same(a, "--hex-rx") {
            self.net.hex_rx = true;
        } else {
            return false;
        }
        true
    }

    /// Set option `a` to `v`; `false` if the option does not take that.
    fn set_value(&mut self, a: &str, v: &str) -> (taken: bool)
        ensures
            match old(self)@.with_value(a@, v@) {
                Some(next) => taken && final(self)@ == next,
                None => !taken && *final(self) == *old(self),
            },
    {
        let text: String = v.to_owned();
        if same(a, "--udc") {
            self.opt.udc = text;
        } else if same(a, "--gadget") {
            self.opt.gadget_name = text;
        } else if same(a, "--mount") {
            self.opt.mount_point = text;
        } else if same(a, "--ffs") {
            self.opt.ffs_path = text;
        } else if same(a, "--gadget-dir") {
            self.opt.gadget_dir = text;
        } else if same(a, "--iface") {
            self.net.iface = Some(text);
        } else if same(a, "--peer") {
            self.net.peer = Some(text);
        } else if same(a, "--ip") {
            self.net.ip = Some(text);
        } else if same(a, "--dump") {
            self.net.dump = Some(text);
        } else {
            match parse_number(v, false, u64::MAX) {
                Some(n) => {
                    if same(a, "--wait") {
                        self.net.wait_secs = Some(n);
                    } else {
                        self.net.handshake_ms = Some(n);
                    }
                },
                None => {
                    return false;
                },
            }
        }
        true
    }
}

/// Whether `a` is an option that takes a value.
fn wants_value(a: &str) -> (yes: bool)
    ensures
        yes == takes_value(a@),
{
    same(a, "--udc") || same(a, "--gadget") || same(a, "--mount") || same(a, "--ffs") || same(
        a,
        "--gadget-dir",
    ) || same(a, "--iface") || same(a, "--peer") || same(a, "--ip") || same(a, "--dump") || same(
        a,
        "--wait",
    ) || same(a, "--handshake-ms")
}

/// Whether `s` starts with a dash.
fn dashed(s: &str) -> (yes: bool)
    ensures
        yes == (s@.len() > 0 && s@[0] == '-'),
{
    let v: Vec<char> = chars_of(s);
    v.len() > 0 && v[0] == '-'
}

/// Read the arguments, the program's name left out.
pub fn parse_args(args: &[String]) -> (p: Parsed)
    ensures
        p@ == parsed(views(args@)),
{
    let ghost all = views(args@);
    let mut cli: Cli = Cli::new();
    let mut i: usize = 0;
    while i < args.len()
        invariant
            all == views(args@),
            i <= args@.len(),
            parsed(all) == parsed_from(all, i as int, cli@),
        decreases args@.len() - i,
    {
        let a: &str = args[i].as_str();
        assert(all[i as int] == a@);
        if cli.set_flag(a) {
            i = i + 1;
            continue;
        }
        if wants_value(a) && i + 1 < args.len() {
            assert(all[i + 1] == args@[i + 1]@);
            if !cli.set_value(a, args[i + 1].as_str()) {
                return Parsed::Misuse;
            }
            i = i + 2;
        } else if same(a, "-h") || same(a, "--help") {
            return Parsed::Help;
        } else if same(a, "-V") || same(a, "--version") {
            return Parsed::Version;
        } else if dashed(a) {
            return Parsed::Misuse;
        } else {
            cli.out_path = a.to_owned();
            cli.out_path_given = true;
            i = i + 1;
        }
    }
    Parsed::Run(cli)
}

// --- what to do ---------------------------------------------------------------

/// Why the program refuses to run.
#[derive(Clone, Copy, Debug, PartialEq, Eq, Structural)]
pub enum Refusal {
    /// `--ffs` attaches to an existing gadget; `--mount` and `--cleanup` do not
    /// apply to it.
    FfsWithMountOrCleanup,
    /// `--gadget-dir` only means something together with `--ffs`.
    GadgetDirWithoutFfs,
    /// It must run as root.
    NotRoot,
}

/// What the program does.
#[derive(Clone, Copy, Debug, PartialEq, Eq, Structural)]
pub enum Plan {
    /// List the controllers.
    ListUdcs,
    /// Refuse to run.
    Refuse(Refusal),
    /// Remove a gadget left behind by a killed run.
    CleanUp,
    /// Capture.
    Capture,
}

/// What the program does for a command line, run by root or not. Listing needs
/// neither a sound command line nor root.
pub open spec fn plan_of(c: CliView, root: bool) -> Plan {
    if c.list_udc {
        Plan::ListUdcs
    } else if c.opt.ffs_path.len() > 0 && (c.opt.mount_point.len() > 0 || c.cleanup) {
        Plan::Refuse(Refusal::FfsWithMountOrCleanup)
    } else if c.opt.gadget_dir.len() > 0 && c.opt.ffs_path.len() == 0 {
        Plan::Refuse(Refusal::GadgetDirWithoutFfs)
    } else if !root {
        Plan::Refuse(Refusal::NotRoot)
    } else if c.cleanup {
        Plan::CleanUp
    } else {
        Plan::Capture
    }
}

/// What the program does for a command line, run by root or not.
pub fn plan(cli: &Cli, root: bool) -> (p: Plan)
    ensures
        p == plan_of(cli@, root),
{
    if cli.list_udc {
        return Plan::ListUdcs;
    }
    let ffs: bool = !cli.opt.ffs_path.as_str().is_empty();
    if ffs && (!cli.opt.mount_point.as_str().is_empty() || cli.cleanup) {
        return Plan::Refuse(Refusal::FfsWithMountOrCleanup);
    }
    if !cli.opt.gadget_dir.as_str().is_empty() && !ffs {
        return Plan::Refuse(Refusal::GadgetDirWithoutFfs);
    }
    if !root {
        return Plan::Refuse(Refusal::NotRoot);
    }
    if cli.cleanup {
        Plan::CleanUp
    } else {
        Plan::Capture
    }
}

impl Plan {
    /// The exit code, if nothing is done.
    pub open spec fn spec_exit_code(self) -> Option<i32> {
        match self {
            Plan::Refuse(why) => Some(1i32),
            _ => None,
        }
    }

    /// The exit code, if nothing is done: refusing to run is a failure.
    pub fn exit_code(self) -> (code: Option<i32>)
        ensures
            code == self.spec_exit_code(),
    {
        match self {
            Plan::Refuse(_) => Some(1),
            _ => None,
        }
    }
}

/// How the program ends, where it comes to something.
#[derive(Clone, Copy, Debug, PartialEq, Eq, Structural)]
pub enum Ending {
    /// The controllers were listed.
    Listed,
    /// There are no controllers to list.
    NothingListed,
    /// The controller that was asked for is not there.
    NoSuchUdc,
    /// What a killed run left behind is gone, if there was anything.
    CleanedUp,
    /// Cleaning up was given up.
    NotCleanedUp,
    /// The output cannot be opened, or the renderer not be started.
    NoSink,
    /// The address of the goggles is none.
    BadPeer,
    /// There is no controller to capture on.
    NoController,
    /// The gadget did not come up.
    GadgetDown,
    /// The network link failed, or was never there.
    LinkFailed,
}

impl Ending {
    /// The exit code.
    pub open spec fn spec_exit_code(self) -> i32 {
        if self == Ending::Listed || self == Ending::CleanedUp {
            0
        } else {
            1
        }
    }

    /// The exit code.
    pub fn exit_code(self) -> (code: i32)
        ensures
            code == self.spec_exit_code(),
    {
        match self {
            Ending::Listed => 0,
            Ending::CleanedUp => 0,
            _ => 1,
        }
    }
}

/// How listing so many controllers ends.
pub open spec fn listing_ends(udcs: nat) -> Ending {
    if udcs > 0 {
        Ending::Listed
    } else {
        Ending::NothingListed
    }
}

/// How listing the controllers ends: well if there are any.
pub fn listing_end(udcs: &[String]) -> (end: Ending)
    ensures
        end == listing_ends(udcs@.len()),
        end == if udcs@.len() > 0 {
            Ending::Listed
        } else {
            Ending::NothingListed
        },
{
    if udcs.len() > 0 {
        Ending::Listed
    } else {
        Ending::NothingListed
    }
}

/// How cleaning up ends, with a controller or without, given up or not.
pub open spec fn cleanup_ends(has_udc: bool, refused: bool) -> Ending {
    if !has_udc {
        Ending::NoSuchUdc
    } else if refused {
        Ending::NotCleanedUp
    } else {
        Ending::CleanedUp
    }
}

/// How cleaning up ends, with the controller of [`cleanup_udc`]: well unless
/// there was none to be had or it was given up.
pub fn cleanup_end(udc: &Option<String>, refused: Option<steps::Refusal>) -> (end: Ending)
    ensures
        end == cleanup_ends(udc is Some, refused is Some),
        end == if udc is None {
            Ending::NoSuchUdc
        } else if refused is Some {
            Ending::NotCleanedUp
        } else {
            Ending::CleanedUp
        },
{
    match udc {
        None => Ending::NoSuchUdc,
        Some(_) => match refused {
            Some(_) => Ending::NotCleanedUp,
            None => Ending::CleanedUp,
        },
    }
}

/// How a capture ends that does not even start streaming, if it does not start.
pub open spec fn start_ends(opt: OptionsView, found: bool, refused: bool) -> Option<Ending> {
    if opt.needs_udc() && !found {
        Some(Ending::NoController)
    } else if refused {
        Some(Ending::GadgetDown)
    } else {
        None
    }
}

/// How a capture ends that does not even start streaming: `found` says whether
/// a controller was found, if one is needed, and `refused` why the gadget did
/// not come up, if it did not. `None` if it does start.
pub fn start_end(opt: &Options, found: bool, refused: Option<steps::Refusal>) -> (end: Option<
    Ending,
>)
    ensures
        end == start_ends(opt@, found, refused is Some),
        end == if opt@.needs_udc() && !found {
            Some(Ending::NoController)
        } else if refused is Some {
            Some(Ending::GadgetDown)
        } else {
            None
        },
{
    if opt.needs_udc() && !found {
        return Some(Ending::NoController);
    }
    match refused {
        Some(_) => Some(Ending::GadgetDown),
        None => None,
    }
}

/// The controller to clean up with: the one that was picked, or none in
/// particular if none was asked for.
pub open spec fn cleans_up_with(picked: Option<Seq<char>>, wanted: Seq<char>) -> Option<Seq<char>> {
    let found = match picked {
        Some(u) => u,
        None => Seq::empty(),
    };
    if found.len() == 0 && wanted.len() > 0 {
        None
    } else {
        Some(found)
    }
}

/// The controller to clean up with; `None` if one was asked for that is not
/// there. The stale gadget is removed either way; the controller is only
/// needed to hand it back to its previous owner.
pub fn cleanup_udc(picked: Option<String>, wanted: &str) -> (udc: Option<String>)
    ensures
        opt_view(udc) == cleans_up_with(opt_view(picked), wanted@),
        ({
            let found = match opt_view(picked) {
                Some(u) => u,
                None => Seq::empty(),
            };
            match udc {
                Some(u) => u@ == found && (found.len() > 0 || wanted@.len() == 0),
                None => found.len() == 0 && wanted@.len() > 0,
            }
        }),
{
    let udc: String = match picked {
        Some(u) => u,
        None => String::new(),
    };
    if udc.as_str().is_empty() && !wanted.is_empty() {
        None
    } else {
        Some(udc)
    }
}

/// The capture runs on an accepted command line only: as root, and with no
/// option that does not apply to the way the gadget is brought up.
pub proof fn law_captures_only_when_sound(c: CliView, root: bool)
    ensures
        plan_of(c, root) == Plan::Capture ==> {
            &&& root
            &&& !c.cleanup
            &&& !c.list_udc
            &&& c.opt.mount_point.len() > 0 ==> c.opt.ffs_path.len() == 0
            &&& c.opt.gadget_dir.len() > 0 ==> c.opt.ffs_path.len() > 0
        },
{
}

// --- how to capture, and where to --------------------------------------------

/// Which link the goggles are captured on.
#[derive(Clone, Copy, Debug, PartialEq, Eq, Structural)]
pub enum Mode {
    /// The USB accessory link.
    Aoa,
    /// The network link of "Liveview sharing".
    GogglesNet,
}

/// The mode that a setting asks for.
pub open spec fn mode_of(var: Option<Seq<char>>) -> Mode {
    if var == Some("goggles-net"@) {
        Mode::GogglesNet
    } else {
        Mode::Aoa
    }
}

/// The mode that `ORBIT_MODE` asks for: the accessory link, unless it says
/// `goggles-net`.
pub fn mode(var: Option<&str>) -> (m: Mode)
    ensures
        m == mode_of(
            match var {
                Some(v) => Some(v@),
                None => None,
            },
        ),
        m == if var matches Some(v) && v@ == "goggles-net"@ {
            Mode::GogglesNet
        } else {
            Mode::Aoa
        },
{
    match var {
        Some(v) => {
            if same(v, "goggles-net") {
                Mode::GogglesNet
            } else {
                Mode::Aoa
            }
        },
        None => Mode::Aoa,
    }
}

/// A codec setting, understood or not.
#[derive(Clone, Copy, Debug, PartialEq, Eq, Structural)]
pub enum Codec {
    H264,
    H265,
    /// Not understood: taken for H.264.
    Unknown,
}

/// The codec that a setting names, in any case; H.264 if it is empty.
pub open spec fn codec_of(name: Seq<char>) -> Codec {
    let n = lower(name);
    if n == "h265"@ || n == "hevc"@ {
        Codec::H265
    } else if n == "h264"@ || n.len() == 0 {
        Codec::H264
    } else {
        Codec::Unknown
    }
}

/// The codec that a setting names.
fn codec(name: &str) -> (c: Codec)
    ensures
        c == codec_of(name@),
{
    if same_lower(name, "h265") || same_lower(name, "hevc") {
        Codec::H265
    } else if same_lower(name, "h264") || name.is_empty() {
        assert(lower(name@).len() == name@.len());
        Codec::H264
    } else {
        assert(lower(name@).len() == name@.len());
        Codec::Unknown
    }
}

/// What the environment says about the renderer: `None` where a variable is
/// not set.
pub struct RendererEnv<'a> {
    /// `ORBIT_RENDERER`.
    pub renderer: Option<&'a str>,
    /// `ORBIT_CODEC`.
    pub orbit_codec: Option<&'a str>,
    /// `CODEC`.
    pub codec: Option<&'a str>,
    /// A KMS device is there.
    pub has_card: bool,
}

impl<'a> RendererEnv<'a> {
    /// The codec setting in force.
    pub open spec fn codec_name(self) -> Seq<char> {
        match self.orbit_codec {
            Some(c) => c@,
            None => match self.codec {
                Some(c) => c@,
                None => Seq::empty(),
            },
        }
    }

    /// The renderer's command line; `None` to write a file instead.
    pub open spec fn argv_spec(self) -> Option<Seq<Seq<char>>> {
        match self.renderer {
            Some(v) => {
                let t = trim_spec(v@);
                if t.len() == 0 || t == "none"@ || t == "off"@ {
                    None
                } else {
                    Some(words(t))
                }
            },
            None => if self.has_card {
                Some(
                    seq![
                        "/usr/local/bin/orbit-kms"@,
                        if codec_of(self.codec_name()) == Codec::H265 {
                            "--h265"@
                        } else {
                            "--h264"@
                        },
                    ],
                )
            } else {
                None
            },
        }
    }

    /// The codec setting matters and is not understood.
    pub open spec fn codec_unknown_spec(self) -> bool {
        self.renderer is None && self.has_card && codec_of(self.codec_name()) == Codec::Unknown
    }

    /// The codec setting in force.
    fn chosen_codec(&self) -> (c: Codec)
        ensures
            c == codec_of(self.codec_name()),
    {
        match self.orbit_codec {
            Some(c) => codec(c),
            None => match self.codec {
                Some(c) => codec(c),
                None => {
                    assert(lower(Seq::<char>::empty()).len() == 0);
                    proof {
                        reveal_strlit("h265");
                        reveal_strlit("hevc");
                    }
                    Codec::H264
                },
            },
        }
    }

    /// Whether the codec setting matters and is not understood; it is then
    /// taken for H.264.
    pub fn codec_unknown(&self) -> (unknown: bool)
        ensures
            unknown == self.codec_unknown_spec(),
    {
        match self.renderer {
            Some(_) => false,
            None => self.has_card && match self.chosen_codec() {
                Codec::Unknown => true,
                _ => false,
            },
        }
    }
}

/// The renderer's command line, or `None` to fall back to writing a file.
/// A command of the user's own is split at white space; with none, orbit-kms is
/// picked if a KMS device is there, and is told the codec.
pub fn renderer_argv(env: &RendererEnv) -> (argv: Option<Vec<String>>)
    ensures
        match argv {
            Some(v) => env.argv_spec() == Some(views(v@)),
            None => env.argv_spec() is None,
        },
{
    match env.renderer {
        Some(v) => {
            let t: &str = trim(v);
            if t.is_empty() || same(t, "none") || same(t, "off") {
                None
            } else {
                Some(split_words(t))
            }
        },
        None => {
            if !env.has_card {
                return None;
            }
            let mut argv: Vec<String> = Vec::new();
            argv.push("/usr/local/bin/orbit-kms".to_owned());
            let h265: bool = match env.chosen_codec() {
                Codec::H265 => true,
                _ => false,
            };
            if h265 {
                argv.push("--h265".to_owned());
            } else {
                argv.push("--h264".to_owned());
            }
            assert(views(argv@) =~= env.argv_spec()->0);
            Some(argv)
        },
    }
}

/// A renderer is started with a program to run: its command line is never
/// empty, and neither is the program's name.
pub proof fn law_renderer_has_a_program(env: RendererEnv)
    ensures
        env.argv_spec() matches Some(argv) ==> argv.len() > 0 && argv[0].len() > 0,
{
    match env.renderer {
        Some(v) => {
            if trim_spec(v@).len() > 0 {
                lemma_first_word(v@);
            }
        },
        None => {
            reveal_strlit("/usr/local/bin/orbit-kms");
        },
    }
}

/// Where the elementary stream goes.
pub enum Sink {
    /// Standard output.
    Stdout,
    /// A file, created or truncated.
    File(String),
    /// The standard input of a renderer, started with this command line.
    Renderer(Vec<String>),
}

/// Where the elementary stream goes, as plain values.
#[verifier::ext_equal]
pub enum SinkView {
    Stdout,
    File(Seq<char>),
    Renderer(Seq<Seq<char>>),
}

impl View for Sink {
    type V = SinkView;

    open spec fn view(&self) -> SinkView {
        match self {
            Sink::Stdout => SinkView::Stdout,
            Sink::File(path) => SinkView::File(path@),
            Sink::Renderer(argv) => SinkView::Renderer(views(argv@)),
        }
    }
}

/// The sink that an output path names.
pub open spec fn sink_named(path: Seq<char>) -> SinkView {
    if path == "stdout"@ {
        SinkView::Stdout
    } else {
        SinkView::File(path)
    }
}

/// The sink that an output path names.
pub fn open_sink(path: &str) -> (sink: Sink)
    ensures
        sink@ == sink_named(path@),
{
    if same(path, "stdout") {
        Sink::Stdout
    } else {
        Sink::File(path.to_owned())
    }
}

/// Where the elementary stream goes, when `argv` is the command line of the
/// renderer, if there is one.
pub open spec fn sink_of(c: CliView, argv: Option<Seq<Seq<char>>>) -> SinkView {
    if c.out_path_given {
        sink_named(c.out_path)
    } else {
        match argv {
            Some(argv) => SinkView::Renderer(argv),
            None => sink_named(c.out_path),
        }
    }
}

/// Decide where the elementary stream goes: to the output that was given, else
/// to the renderer, else to the default file.
pub fn choose_sink(cli: &Cli, env: &RendererEnv) -> (sink: Sink)
    ensures
        sink@ == sink_of(cli@, env.argv_spec()),
        sink@ == if cli@.out_path_given {
            sink_named(cli@.out_path)
        } else {
            match env.argv_spec() {
                Some(argv) => SinkView::Renderer(argv),
                None => sink_named(cli@.out_path),
            }
        },
{
    if cli.out_path_given {
        return open_sink(cli.out_path.as_str());
    }
    match renderer_argv(env) {
        Some(argv) => Sink::Renderer(argv),
        None => open_sink(cli.out_path.as_str()),
    }
}

// --- laws of the command line -------------------------------------------------

/// What tells the names of the options apart.
proof fn lemma_names()
    ensures
        "--cleanup"@.len() == 9 && "--cleanup"@[0] == '-' && "--cleanup"@[2] == 'c',
        "--list-udc"@.len() == 10 && "--list-udc"@[0] == '-' && "--list-udc"@[2] == 'l',
        "--probe"@.len() == 7 && "--probe"@[0] == '-' && "--probe"@[2] == 'p',
        "--hex-rx"@.len() == 8 && "--hex-rx"@[0] == '-' && "--hex-rx"@[2] == 'h',
        "--udc"@.len() == 5 && "--udc"@[0] == '-' && "--udc"@[2] == 'u',
        "--gadget"@.len() == 8 && "--gadget"@[0] == '-' && "--gadget"@[2] == 'g',
        "--mount"@.len() == 7 && "--mount"@[0] == '-' && "--mount"@[2] == 'm',
        "--ffs"@.len() == 5 && "--ffs"@[0] == '-' && "--ffs"@[2] == 'f',
        "--gadget-dir"@.len() == 12 && "--gadget-dir"@[0] == '-' && "--gadget-dir"@[2] == 'g',
        "--iface"@.len() == 7 && "--iface"@[0] == '-' && "--iface"@[2] == 'i',
        "--peer"@.len() == 6 && "--peer"@[0] == '-' && "--peer"@[2] == 'p',
        "--ip"@.len() == 4 && "--ip"@[0] == '-' && "--ip"@[2] == 'i',
        "--dump"@.len() == 6 && "--dump"@[0] == '-' && "--dump"@[2] == 'd',
        "--wait"@.len() == 6 && "--wait"@[0] == '-' && "--wait"@[2] == 'w',
        "--handshake-ms"@.len() == 14 && "--handshake-ms"@[0] == '-' && "--handshake-ms"@[2] == 'h',
        "-h"@.len() == 2 && "-h"@[0] == '-' && "-h"@[1] == 'h',
        "--help"@.len() == 6 && "--help"@[0] == '-' && "--help"@[2] == 'h',
        "-V"@.len() == 2 && "-V"@[0] == '-' && "-V"@[1] == 'V',
        "--version"@.len() == 9 && "--version"@[0] == '-' && "--version"@[2] == 'v',
{
    reveal_strlit("--cleanup");
    reveal_strlit("--list-udc");
    reveal_strlit("--probe");
    reveal_strlit("--hex-rx");
    reveal_strlit("--udc");
    reveal_strlit("--gadget");
    reveal_strlit("--mount");
    reveal_strlit("--ffs");
    reveal_strlit("--gadget-dir");
    reveal_strlit("--iface");
    reveal_strlit("--peer");
    reveal_strlit("--ip");
    reveal_strlit("--dump");
    reveal_strlit("--wait");
    reveal_strlit("--handshake-ms");
    reveal_strlit("-h");
    reveal_strlit("--help");
    reveal_strlit("-V");
    reveal_strlit("--version");
}

/// Arguments can be read in two parts: what is understood of the first part is
/// where the second starts.
pub proof fn law_arguments_are_read_in_order(
    a: Seq<Seq<char>>,
    b: Seq<Seq<char>>,
    i: int,
    c: CliView,
)
    requires
        0 <= i <= a.len(),
        parsed_from(a, i, c) is Run,
    ensures
        parsed_from(a + b, i, c) == parsed_from(b, 0, parsed_from(a, i, c)->Run_0),
    decreases a.len() - i,
{
    if i < a.len() {
        assert((a + b)[i] == a[i]);
        match c.with_flag(a[i]) {
            Some(next) => {
                law_arguments_are_read_in_order(a, b, i + 1, next);
            },
            None => {
                if takes_value(a[i]) && i + 1 < a.len() {
                    assert((a + b)[i + 1] == a[i + 1]);
                    law_arguments_are_read_in_order(a, b, i + 2, c.with_value(a[i], a[i + 1])->0);
                } else {
                    if takes_value(a[i]) {
                        lemma_values_are_dashed(a[i]);
                    }
                    law_arguments_are_read_in_order(
                        a,
                        b,
                        i + 1,
                        CliView { out_path: a[i], out_path_given: true, ..c },
                    );
                }
            },
        }
    } else {
        lemma_parsed_suffix(a, b, 0, c);
    }
}

/// Reading on after the first arguments is reading what follows them.
proof fn lemma_parsed_suffix(a: Seq<Seq<char>>, b: Seq<Seq<char>>, j: int, c: CliView)
    requires
        0 <= j <= b.len(),
    ensures
        parsed_from(a + b, a.len() + j, c) == parsed_from(b, j, c),
    decreases b.len() - j,
{
    if j < b.len() {
        assert((a + b)[a.len() + j] == b[j]);
        match c.with_flag(b[j]) {
            Some(next) => {
                lemma_parsed_suffix(a, b, j + 1, next);
            },
            None => {
                if takes_value(b[j]) && j + 1 < b.len() {
                    assert((a + b)[a.len() + j + 1] == b[j + 1]);
                    if c.with_value(b[j], b[j + 1]) is Some {
                        lemma_parsed_suffix(a, b, j + 2, c.with_value(b[j], b[j + 1])->0);
                    }
                } else {
                    lemma_parsed_suffix(
                        a,
                        b,
                        j + 1,
                        CliView { out_path: b[j], out_path_given: true, ..c },
                    );
                }
            },
        }
    }
}

proof fn lemma_values_are_dashed(a: Seq<char>)
    requires
        takes_value(a),
    ensures
        a.len() > 2 && a[0] == '-',
{
    lemma_names();
}

proof fn lemma_one_option(a: Seq<char>, v: Seq<char>, c: CliView)
    requires
        takes_value(a),
    ensures
        parsed_from(seq![a, v], 0, c) == match c.with_value(a, v) {
            Some(next) => ParsedView::Run(next),
            None => ParsedView::Misuse,
        },
{
    lemma_names();
    let args = seq![a, v];
    assert(c.with_flag(a) is None);
    if c.with_value(a, v) is Some {
        assert(parsed_from(args, 2, c.with_value(a, v)->0) == ParsedView::Run(
            c.with_value(a, v)->0,
        ));
    }
}

/// Each option that takes a text sets what it is named after to that text, and
/// nothing else.
pub proof fn law_options_set_one_thing(v: Seq<char>, c: CliView)
    ensures
        parsed_from(seq!["--udc"@, v], 0, c) == (ParsedView::Run(
            CliView { opt: OptionsView { udc: v, ..c.opt }, ..c },
        )),
        parsed_from(seq!["--gadget"@, v], 0, c) == (ParsedView::Run(
            CliView { opt: OptionsView { gadget_name: v, ..c.opt }, ..c },
        )),
        parsed_from(seq!["--mount"@, v], 0, c) == (ParsedView::Run(
            CliView { opt: OptionsView { mount_point: v, ..c.opt }, ..c },
        )),
        parsed_from(seq!["--ffs"@, v], 0, c) == (ParsedView::Run(
            CliView { opt: OptionsView { ffs_path: v, ..c.opt }, ..c },
        )),
        parsed_from(seq!["--gadget-dir"@, v], 0, c) == (ParsedView::Run(
            CliView { opt: OptionsView { gadget_dir: v, ..c.opt }, ..c },
        )),
        parsed_from(seq!["--iface"@, v], 0, c) == (ParsedView::Run(
            CliView { net: NetArgsView { iface: Some(v), ..c.net }, ..c },
        )),
        parsed_from(seq!["--peer"@, v], 0, c) == (ParsedView::Run(
            CliView { net: NetArgsView { peer: Some(v), ..c.net }, ..c },
        )),
        parsed_from(seq!["--ip"@, v], 0, c) == (ParsedView::Run(
            CliView { net: NetArgsView { ip: Some(v), ..c.net }, ..c },
        )),
        parsed_from(seq!["--dump"@, v], 0, c) == (ParsedView::Run(
            CliView { net: NetArgsView { dump: Some(v), ..c.net }, ..c },
        )),
{
    lemma_names();
    lemma_one_option("--udc"@, v, c);
    lemma_one_option("--gadget"@, v, c);
    lemma_one_option("--mount"@, v, c);
    lemma_one_option("--ffs"@, v, c);
    lemma_one_option("--gadget-dir"@, v, c);
    lemma_one_option("--iface"@, v, c);
    lemma_one_option("--peer"@, v, c);
    lemma_one_option("--ip"@, v, c);
    lemma_one_option("--dump"@, v, c);
}

/// The two options that take a number take the decimal numbers below 2^64, set
/// what they are named after and nothing else, and refuse everything else.
pub proof fn law_number_options(v: Seq<char>, c: CliView)
    ensures
        match number_of(v, false) {
            Some(n) if n < 0x1_0000_0000_0000_0000 => {
                &&& parsed_from(seq!["--wait"@, v], 0, c) == (ParsedView::Run(
                    CliView { net: NetArgsView { wait_secs: Some(n as u64), ..c.net }, ..c },
                ))
                &&& parsed_from(seq!["--handshake-ms"@, v], 0, c) == (ParsedView::Run(
                    CliView { net: NetArgsView { handshake_ms: Some(n as u64), ..c.net }, ..c },
                ))
            },
            _ => {
                &&& parsed_from(seq!["--wait"@, v], 0, c) is Misuse
                &&& parsed_from(seq!["--handshake-ms"@, v], 0, c) is Misuse
            },
        },
{
    lemma_names();
    lemma_one_option("--wait"@, v, c);
    lemma_one_option("--handshake-ms"@, v, c);
}

/// Each flag sets what it is named after, and nothing else.
pub proof fn law_flags_set_one_thing(c: CliView)
    ensures
        parsed_from(seq!["--cleanup"@], 0, c) == (ParsedView::Run(CliView { cleanup: true, ..c })),
        parsed_from(seq!["--list-udc"@], 0, c) == (ParsedView::Run(CliView { list_udc: true, ..c })),
        parsed_from(seq!["--probe"@], 0, c) == (ParsedView::Run(
            CliView { net: NetArgsView { probe: true, ..c.net }, ..c },
        )),
        parsed_from(seq!["--hex-rx"@], 0, c) == (ParsedView::Run(
            CliView { net: NetArgsView { hex_rx: true, ..c.net }, ..c },
        )),
{
    lemma_names();
    reveal_with_fuel(parsed_from, 2);
}

/// Help and version are given whatever follows them, and whatever was asked for
/// before.
pub proof fn law_help_and_version(c: CliView, b: Seq<Seq<char>>)
    ensures
        parsed_from(seq!["-h"@] + b, 0, c) is Help,
        parsed_from(seq!["--help"@] + b, 0, c) is Help,
        parsed_from(seq!["-V"@] + b, 0, c) is Version,
        parsed_from(seq!["--version"@] + b, 0, c) is Version,
{
    lemma_names();
    assert((seq!["-h"@] + b)[0] == "-h"@);
    assert((seq!["--help"@] + b)[0] == "--help"@);
    assert((seq!["-V"@] + b)[0] == "-V"@);
    assert((seq!["--version"@] + b)[0] == "--version"@);
}

/// What does not start with a dash is the output, the last such argument in
/// force; what does and is no option, and an option without its value, is misuse.
pub proof fn law_other_arguments(c: CliView, a: Seq<char>, b: Seq<Seq<char>>)
    ensures
        a.len() == 0 || a[0] != '-' ==> parsed_from(seq![a], 0, c) == (ParsedView::Run(
            CliView { out_path: a, out_path_given: true, ..c },
        )),
        takes_value(a) ==> parsed_from(seq![a], 0, c) is Misuse,
        a.len() > 0 && a[0] == '-' && !takes_value(a) && a != "--cleanup"@ && a != "--list-udc"@
            && a != "--probe"@ && a != "--hex-rx"@ && a != "-h"@ && a != "--help"@ && a != "-V"@
            && a != "--version"@ ==> parsed_from(seq![a] + b, 0, c) is Misuse,
{
    lemma_names();
    reveal_with_fuel(parsed_from, 2);
    assert((seq![a] + b)[0] == a);
}

/// With no argument, everything is as it is by default.
pub proof fn law_no_arguments()
    ensures
        parsed(Seq::empty()) == ParsedView::Run(CliView::empty()),
        ({
            let c = CliView::empty();
            &&& c.out_path == "./goggles_feed.h264"@ && !c.out_path_given
            &&& !c.cleanup && !c.list_udc && !c.net.probe && !c.net.hex_rx
            &&& c.opt == OptionsView::standard()
            &&& c.net.iface is None && c.net.peer is None && c.net.ip is None
            &&& c.net.wait_secs is None && c.net.handshake_ms is None && c.net.dump is None
        }),
{
}

/// Each plan, with the command lines that lead to it.
pub proof fn law_plans(c: CliView, root: bool)
    ensures
        ({
            let ffs = c.opt.ffs_path.len() > 0;
            let clash = ffs && (c.cleanup || c.opt.mount_point.len() > 0);
            let lone = !ffs && c.opt.gadget_dir.len() > 0;
            let p = plan_of(c, root);
            &&& p is ListUdcs <==> c.list_udc
            &&& p == Plan::Refuse(Refusal::FfsWithMountOrCleanup) <==> !c.list_udc && clash
            &&& p == Plan::Refuse(Refusal::GadgetDirWithoutFfs) <==> !c.list_udc && lone
            &&& p == Plan::Refuse(Refusal::NotRoot) <==> !c.list_udc && !clash && !lone && !root
            &&& p is CleanUp <==> !c.list_udc && !clash && !lone && root && c.cleanup
            &&& p is Capture <==> !c.list_udc && !clash && !lone && root && !c.cleanup
            &&& p.spec_exit_code() == if p is Refuse {
                Some(1i32)
            } else {
                None
            }
        }),
{
}

/// Only a list of controllers and a clean-up that went through are a success.
pub proof fn law_endings(e: Ending, p: ParsedView)
    ensures
        e.spec_exit_code() == 0 <==> e is Listed || e is CleanedUp,
        e.spec_exit_code() == 0 || e.spec_exit_code() == 1,
        p.spec_exit_code() == Some(0i32) <==> p is Help || p is Version,
        p.spec_exit_code() == Some(1i32) <==> p is Misuse,
        p.spec_exit_code() is None <==> p is Run,
{
}

/// How each part of the program ends.
pub proof fn law_which_ending(n: nat, opt: OptionsView, a: bool, b: bool)
    ensures
        listing_ends(n).spec_exit_code() == 0 <==> n >= 1,
        listing_ends(n) is Listed || listing_ends(n) is NothingListed,
        cleanup_ends(a, b).spec_exit_code() == 0 <==> a && !b,
        cleanup_ends(a, b) is NoSuchUdc <==> !a,
        cleanup_ends(a, b) is NotCleanedUp <==> a && b,
        start_ends(opt, a, b) is None <==> !b && (a || opt.ffs_path.len() > 0
            && opt.gadget_dir.len() == 0),
        start_ends(opt, a, b) == Some(Ending::NoController) <==> !a && (opt.ffs_path.len() == 0
            || opt.gadget_dir.len() > 0),
        start_ends(opt, a, b) matches Some(e) ==> e is NoController || e is GadgetDown,
{
}

/// Cleaning up takes the controller that was picked; without one it goes on only
/// if none was asked for.
pub proof fn law_cleanup_needs_no_udc(u: Seq<char>, wanted: Seq<char>)
    ensures
        u.len() > 0 ==> cleans_up_with(Some(u), wanted) == Some(u),
        wanted.len() == 0 ==> cleans_up_with(None, wanted) == Some(Seq::<char>::empty()),
        wanted.len() > 0 ==> cleans_up_with(None, wanted) is None && cleans_up_with(
            Some(Seq::empty()),
            wanted,
        ) is None,
{
}

/// The network link is captured on if it is asked for by name, exactly.
pub proof fn law_modes(v: Seq<char>)
    ensures
        mode_of(None) is Aoa,
        mode_of(Some(v)) is GogglesNet <==> v == seq![
            'g', 'o', 'g', 'g', 'l', 'e', 's', '-', 'n', 'e', 't',
        ],
{
    reveal_strlit("goggles-net");
    assert("goggles-net"@ =~= seq!['g', 'o', 'g', 'g', 'l', 'e', 's', '-', 'n', 'e', 't']);
}

/// A codec is known by its name in any mixture of cases.
pub proof fn law_codecs(a: Seq<char>, b: Seq<char>)
    requires
        lower(a) == lower(b),
    ensures
        codec_of(a) == codec_of(b),
        codec_of(a) is H265 <==> lower(a) == seq!['h', '2', '6', '5'] || lower(a) == seq![
            'h',
            'e',
            'v',
            'c',
        ],
        codec_of(a) is H264 <==> a.len() == 0 || lower(a) == seq!['h', '2', '6', '4'],
{
    reveal_strlit("h265");
    reveal_strlit("hevc");
    reveal_strlit("h264");
    assert("h265"@ =~= seq!['h', '2', '6', '5']);
    assert("hevc"@ =~= seq!['h', 'e', 'v', 'c']);
    assert("h264"@ =~= seq!['h', '2', '6', '4']);
    assert(lower(a).len() == a.len());
    if lower(a) == "h265"@ || lower(a) == "hevc"@ || lower(a) == "h264"@ {
        assert(a.len() == 4);
    }
}

/// Without a renderer of the user's own, one is started exactly if there is a
/// KMS device, and is told H.265 only if that is asked for. The setting that is
/// the program's own goes before the general one.
pub proof fn law_standard_renderer(env: RendererEnv)
    requires
        env.renderer is None,
    ensures
        env.argv_spec() is Some <==> env.has_card,
        env.argv_spec() matches Some(argv) ==> {
            let name = if env.orbit_codec is Some {
                env.orbit_codec->0@
            } else if env.codec is Some {
                env.codec->0@
            } else {
                Seq::empty()
            };
            &&& argv.len() == 2
            &&& argv[0] == "/usr/local/bin/orbit-kms"@
            &&& codec_of(name) is H265 ==> argv[1] == "--h265"@
            &&& !(codec_of(name) is H265) ==> argv[1] == "--h264"@
            &&& env.codec_unknown_spec() <==> codec_of(name) is Unknown
        },
{
}

/// A renderer of the user's own is run word for word, unless the setting is
/// blank or says `none` or `off`; the codec is then nobody's business.
pub proof fn law_own_renderer(env: RendererEnv, s: Seq<char>)
    requires
        env.renderer matches Some(v) && trim_spec(v@) == s,
    ensures
        env.argv_spec() is None <==> s.len() == 0 || s == seq!['n', 'o', 'n', 'e'] || s == seq![
            'o',
            'f',
            'f',
        ],
        env.argv_spec() matches Some(argv) ==> argv == words(s),
        !env.codec_unknown_spec(),
{
    reveal_strlit("none");
    reveal_strlit("off");
    assert("none"@ =~= seq!['n', 'o', 'n', 'e']);
    assert("off"@ =~= seq!['o', 'f', 'f']);
}

/// An output that is given is used, whatever renderer there is; without one the
/// renderer is, and without that the default file. Only `stdout` is not a file.
pub proof fn law_sinks(c: CliView, argv: Seq<Seq<char>>, path: Seq<char>)
    ensures
        ({
            let stdout = seq!['s', 't', 'd', 'o', 'u', 't'];
            let given = CliView { out_path: path, out_path_given: true, ..c };
            let not = CliView { out_path: path, out_path_given: false, ..c };
            &&& path == stdout ==> sink_of(given, Some(argv)) is Stdout && sink_of(given, None) is Stdout
            &&& path != stdout ==> sink_of(given, Some(argv)) == SinkView::File(path) && sink_of(
                given,
                None,
            ) == SinkView::File(path)
            &&& sink_of(not, Some(argv)) == SinkView::Renderer(argv)
            &&& path != stdout ==> sink_of(not, None) == SinkView::File(path)
        }),
{
    reveal_strlit("stdout");
    assert("stdout"@ =~= seq!['s', 't', 'd', 'o', 'u', 't']);
}

/// A command line is read from its first argument on, starting from the
/// defaults, and what follows goes on from there.
pub proof fn law_command_line_in_order(a: Seq<Seq<char>>, b: Seq<Seq<char>>, c: CliView)
    requires
        parsed(a) == ParsedView::Run(c),
    ensures
        parsed(a + b) == parsed_from(b, 0, c),
        parsed(b) == parsed_from(b, 0, CliView::empty()),
{
    law_arguments_are_read_in_order(a, b, 0, CliView::empty());
}

} // verus!
