use std::collections::{BTreeMap, BTreeSet};

use orbit_rs::capture::Options;
use orbit_rs::common::Errno;
use orbit_rs::gadget::lifecycle::udc_file_of;
use orbit_rs::gadget::steps::{Note, Op, Refusal, Reply};
use orbit_rs::gadget::{
    aoa_identity, endpoint_of, ffs_descriptors, ffs_strings, format_id, trim_file, FunctionFsGadget,
};
use orbit_rs::goggles_net::handshake::hex;

const GADGETS: &str = "/sys/kernel/config/usb_gadget";

/// As much of configfs and FunctionFS as a gadget needs.
#[derive(Clone, Default, Debug, PartialEq)]
struct Board {
    dirs: BTreeSet<String>,
    links: BTreeMap<String, String>,
    files: BTreeMap<String, String>,
    mounts: BTreeMap<String, String>,
    ep0: Option<Vec<Vec<u8>>>,
    /// What is to fail: an operation whose text starts so.
    broken: Option<(String, Errno)>,
    log: Vec<String>,
}

impl Board {
    fn new() -> Board {
        let mut b = Board::default();
        b.dirs.insert(GADGETS.to_string());
        b
    }

    /// A board with another gadget, bound to a controller or to none.
    fn with_gadget(mut self, name: &str, udc: &str) -> Board {
        self.dirs.insert(format!("{}/{}", GADGETS, name));
        self.files.insert(udc_file_of(name), format!("{}\n", udc));
        self
    }

    fn broken(mut self, what: &str, errno: Errno) -> Board {
        self.broken = Some((what.to_string(), errno));
        self
    }

    fn text(op: &Op) -> String {
        match op {
            Op::Exists(p) => format!("exists {}", p),
            Op::MakeDir(p) => format!("mkdir {}", p),
            Op::RemoveDir(p) => format!("rmdir {}", p),
            Op::Unlink(p) => format!("unlink {}", p),
            Op::Write { path, value } => format!("write {} {:?}", path, value),
            Op::Read(p) => format!("read {}", p),
            Op::List(p) => format!("list {}", p),
            Op::Link { target, path } => format!("link {} {}", target, path),
            Op::Mount { source, target, kind } => format!("mount {} {} {}", source, target, kind),
            Op::Detach(p) => format!("detach {}", p),
            Op::OpenEp0(p) => format!("open {}", p),
            Op::WriteEp0(b) => format!("ep0 {} bytes", b.len()),
            Op::CloseEp0 => "close".to_string(),
            Op::Pause(us) => format!("pause {}", us),
        }
    }

    fn there(&self, p: &str) -> bool {
        self.dirs.contains(p) || self.links.contains_key(p) || self.files.contains_key(p)
    }

    fn perform(&mut self, op: &Op) -> Reply {
        let text = Board::text(op);
        self.log.push(text.clone());
        if let Some((what, errno)) = &self.broken {
            if text.starts_with(what.as_str()) {
                return Reply::Failed(*errno);
            }
        }
        let ok = |yes: bool| if yes { Reply::Done } else { Reply::Failed(Errno::NotFound) };
        match op {
            Op::Exists(p) => ok(self.there(p)),
            Op::MakeDir(p) => {
                if self.dirs.insert(p.clone()) {
                    Reply::Done
                } else {
                    Reply::Failed(Errno::Exists)
                }
            }
            Op::RemoveDir(p) => {
                let inside = format!("{}/", p);
                let busy = self.dirs.iter().any(|d| d.starts_with(&inside))
                    || self.links.keys().any(|l| l.starts_with(&inside))
                    || self.mounts.contains_key(p);
                if busy {
                    return Reply::Failed(Errno::Other(39));
                }
                let gone = self.dirs.remove(p);
                self.files.retain(|f, _| !f.starts_with(&inside));
                ok(gone)
            }
            Op::Unlink(p) => ok(self.links.remove(p).is_some()),
            Op::Write { path, value } => {
                self.files.insert(path.clone(), value.clone());
                Reply::Done
            }
            Op::Read(p) => match self.files.get(p) {
                Some(t) => Reply::Text(t.clone()),
                None => Reply::Failed(Errno::NotFound),
            },
            Op::List(p) => {
                let inside = format!("{}/", p);
                let mut names: Vec<String> = self
                    .dirs
                    .iter()
                    .filter_map(|d| d.strip_prefix(&inside))
                    .filter(|d| !d.contains('/'))
                    .map(|d| d.to_string())
                    .collect();
                names.push(".hidden".to_string());
                Reply::Names(names)
            }
            Op::Link { target, path } => {
                self.links.insert(path.clone(), target.clone());
                Reply::Done
            }
            Op::Mount { source, target, .. } => {
                self.mounts.insert(target.clone(), source.clone());
                if source == "none" {
                    self.dirs.insert(GADGETS.to_string());
                } else {
                    self.files.insert(format!("{}/ep0", target), String::new());
                }
                Reply::Done
            }
            Op::Detach(p) => {
                self.files.remove(&format!("{}/ep0", p));
                ok(self.mounts.remove(p).is_some())
            }
            Op::OpenEp0(p) => {
                let yes = self.there(p);
                if yes {
                    self.ep0 = Some(Vec::new());
                }
                ok(yes)
            }
            Op::WriteEp0(b) => match &mut self.ep0 {
                Some(blocks) => {
                    blocks.push(b.clone());
                    Reply::Done
                }
                None => Reply::Failed(Errno::Other(9)),
            },
            Op::CloseEp0 => {
                self.ep0 = None;
                Reply::Done
            }
            Op::Pause(_) => Reply::Done,
        }
    }

    /// Do all that the gadget asks for.
    fn drive(&mut self, g: &mut FunctionFsGadget) -> Vec<Note> {
        let mut notes = Vec::new();
        while let Some(step) = g.next() {
            let reply = self.perform(&step.op);
            let note = g.reply(reply);
            if note != Note::Quiet {
                notes.push(note);
            }
        }
        notes
    }

    /// What is on the board, without the record of how it came about.
    fn state(&self) -> Board {
        Board { log: Vec::new(), broken: None, ..self.clone() }
    }

    fn udc_of(&self, gadget: &str) -> String {
        self.files.get(&udc_file_of(gadget)).map(|t| t.trim().to_string()).unwrap_or_default()
    }
}

fn gadget() -> FunctionFsGadget {
    FunctionFsGadget::new("goggles".to_string(), "fe980000.usb".to_string())
}

fn set_up(board: &mut Board) -> (FunctionFsGadget, Vec<Note>) {
    let mut g = gadget();
    g.setup(&aoa_identity());
    let notes = board.drive(&mut g);
    (g, notes)
}

fn refused(board: Board) -> Option<Refusal> {
    let mut board = board;
    set_up(&mut board).0.refused()
}

// --- blocks ------------------------------------------------------------------

#[test]
fn the_descriptor_block() {
    assert_eq!(
        hex(&ffs_descriptors()),
        "03 00 00 00 42 00 00 00 03 00 00 00 03 00 00 00 03 00 00 00 \
         09 04 00 00 02 ff ff 00 01 07 05 81 02 40 00 00 07 05 02 02 40 00 00 \
         09 04 00 00 02 ff ff 00 01 07 05 81 02 00 02 00 07 05 02 02 00 02 00"
    );
}

#[test]
fn the_string_block() {
    assert_eq!(
        hex(&ffs_strings("AO")),
        "02 00 00 00 15 00 00 00 01 00 00 00 01 00 00 00 09 04 41 4f 00"
    );
    let umlaut = ffs_strings("ü");
    assert_eq!(umlaut.len(), 21);
    assert_eq!(&umlaut[18..], &[0xc3, 0xbc, 0]);
}

#[test]
fn blocks_carry_their_length() {
    for b in [ffs_descriptors(), ffs_strings(""), ffs_strings("Android Accessory Interface")] {
        assert_eq!(u32::from_le_bytes([b[4], b[5], b[6], b[7]]) as usize, b.len());
    }
}

#[test]
fn an_endpoint_descriptor_is_read() {
    let e = endpoint_of(&[7, 5, 0x81, 2, 0x00, 0x02, 0, 0, 0]);
    assert_eq!((e.address, e.max_packet), (0x81, 512));
}

#[test]
fn the_accessory_identity() {
    let id = aoa_identity();
    assert_eq!((id.vid, id.pid), (0x18D1, 0x2D01));
    assert_eq!(id.manufacturer, "Google Inc.");
    assert_eq!(id.product, "Android-powered device in accessory mode");
    assert_eq!(id.serial, "da64sxd1");
    assert_eq!(format_id(id.vid), "0x18d1");
    assert_eq!(format_id(7), "0x0007");
}

#[test]
fn controllers_are_listed_in_order() {
    let entries: Vec<String> = ["b.usb", ".", "a.usb", "..", "b", "é", "B"].iter().map(|s| s.to_string()).collect();
    assert_eq!(FunctionFsGadget::list_udcs(&entries), vec!["B", "a.usb", "b", "b.usb", "é"]);
    assert!(FunctionFsGadget::list_udcs(&[]).is_empty());
}

#[test]
fn a_file_is_read_without_its_line_end() {
    assert_eq!(trim_file("fe980000.usb\n"), "fe980000.usb");
    assert_eq!(trim_file("a b \n \n"), "a b");
    assert_eq!(trim_file("\n"), "");
    assert_eq!(trim_file("a\t"), "a\t");
}

// --- bringing up and taking down -----------------------------------------------

#[test]
fn setup_composes_the_accessory() {
    let mut board = Board::new();
    let (g, notes) = set_up(&mut board);
    assert_eq!(g.refused(), None);
    assert!(g.ep0());
    assert!(notes.is_empty());
    let at = |name: &str| board.files[&format!("{}/goggles/{}", GADGETS, name)].clone();
    assert_eq!(at("idVendor"), "0x18d1");
    assert_eq!(at("idProduct"), "0x2d01");
    assert_eq!(at("bcdUSB"), "0x0200");
    assert_eq!(at("bMaxPacketSize0"), "64");
    assert_eq!(at("max_speed"), "high-speed");
    assert_eq!(at("strings/0x409/manufacturer"), "Google Inc.");
    assert_eq!(at("strings/0x409/serialnumber"), "da64sxd1");
    assert_eq!(at("configs/c.1/bmAttributes"), "0xc0");
    assert_eq!(at("configs/c.1/MaxPower"), "2");
    assert_eq!(at("UDC"), "fe980000.usb");
    assert_eq!(board.mounts["/dev/ffs-goggles"], "goggles");
    assert_eq!(
        board.links[&format!("{}/goggles/configs/c.1/ffs.goggles", GADGETS)],
        format!("{}/goggles/functions/ffs.goggles", GADGETS)
    );
    assert_eq!(
        board.ep0.clone().unwrap(),
        vec![ffs_descriptors(), ffs_strings("Android Accessory Interface")]
    );
    assert_eq!(g.open_endpoint("ep1"), "/dev/ffs-goggles/ep1");
}

#[test]
fn teardown_undoes_setup() {
    let before = Board::new();
    let mut board = before.clone();
    let (mut g, _) = set_up(&mut board);
    g.teardown();
    assert!(board.drive(&mut g).is_empty());
    assert_eq!(board.state(), before);
    board.log.clear();
    g.teardown();
    board.drive(&mut g);
    assert!(board.log.is_empty());
}

#[test]
fn teardown_undoes_a_setup_that_was_given_up() {
    for what in [
        "mkdir /sys/kernel/config/usb_gadget/goggles/strings",
        "mkdir /sys/kernel/config/usb_gadget/goggles/configs/c.1/",
        "write /sys/kernel/config/usb_gadget/goggles/bcdUSB",
        "mkdir /sys/kernel/config/usb_gadget/goggles/functions",
        "link",
        "mkdir /dev",
        "mount goggles",
        "open",
        "ep0",
        "write /sys/kernel/config/usb_gadget/goggles/UDC \"fe98",
    ] {
        let before = Board::new();
        let mut board = before.clone().broken(what, Errno::Other(5));
        let (mut g, _) = set_up(&mut board);
        assert!(g.refused().is_some(), "{}", what);
        board.broken = None;
        g.teardown();
        board.drive(&mut g);
        assert_eq!(board.state(), before, "{}", what);
    }
}

#[test]
fn why_a_setup_is_given_up() {
    let io = Errno::Other(5);
    let at = |what: &str| refused(Board::new().broken(what, io));
    assert_eq!(at("exists /sys/kernel/config/usb_gadget"), Some(Refusal::NoConfigfs));
    assert_eq!(refused(Board::new().with_gadget("goggles", "")), Some(Refusal::AlreadyExists));
    assert_eq!(at("mkdir /sys"), Some(Refusal::NoTree));
    assert_eq!(at("mkdir /sys/kernel/config/usb_gadget/goggles/strings"), Some(Refusal::NoDeviceStrings));
    assert_eq!(at("mkdir /sys/kernel/config/usb_gadget/goggles/configs"), Some(Refusal::NoConfiguration));
    assert_eq!(at("write /sys/kernel/config/usb_gadget/goggles/idVendor"), Some(Refusal::IdentityIncomplete));
    assert_eq!(
        at("write /sys/kernel/config/usb_gadget/goggles/configs/c.1/MaxPower"),
        Some(Refusal::IdentityIncomplete)
    );
    assert_eq!(at("mkdir /sys/kernel/config/usb_gadget/goggles/functions"), Some(Refusal::NoFunction));
    assert_eq!(at("link"), Some(Refusal::NotLinked));
    assert_eq!(at("mkdir /dev"), Some(Refusal::NoMountPoint));
    assert_eq!(at("mount goggles"), Some(Refusal::NotMounted));
    assert_eq!(at("open"), Some(Refusal::NoEp0));
    assert_eq!(at("ep0 66"), Some(Refusal::DescriptorsRejected));
    assert_eq!(at("ep0 46"), Some(Refusal::StringsRejected));
    assert_eq!(
        at("write /sys/kernel/config/usb_gadget/goggles/UDC \"fe98"),
        Some(Refusal::NotBound)
    );
    assert_eq!(
        refused(
            Board::new()
                .with_gadget("rockchip", "fe980000.usb")
                .broken("write /sys/kernel/config/usb_gadget/rockchip", io)
        ),
        Some(Refusal::NotReleased)
    );
    let mut g = FunctionFsGadget::new("goggles".to_string(), String::new());
    g.setup(&aoa_identity());
    Board::new().drive(&mut g);
    assert_eq!(g.refused(), Some(Refusal::NoUdc));
}

#[test]
fn what_is_there_already_does_not_hinder() {
    let mut board = Board::new().broken("mkdir", Errno::Exists);
    let (g, _) = set_up(&mut board);
    assert_eq!(g.refused(), None);
    let mut board = Board::new().broken("link", Errno::Exists);
    let (g, _) = set_up(&mut board);
    assert_eq!(g.refused(), None);
}

#[test]
fn configfs_is_mounted_if_need_be() {
    let mut board = Board::default();
    let (g, _) = set_up(&mut board);
    assert_eq!(g.refused(), None);
    assert_eq!(board.mounts["/sys/kernel/config"], "none");
}

#[test]
fn a_rejected_attribute_is_told() {
    let mut board =
        Board::new().broken("write /sys/kernel/config/usb_gadget/goggles/max_speed", Errno::Other(22));
    let (_, notes) = set_up(&mut board);
    assert_eq!(notes, vec![Note::CannotSet]);
}

#[test]
fn a_held_usb_version_is_told() {
    let mut board = Board::new().broken("read /sys/kernel/config/usb_gadget/goggles/bcdUSB", Errno::Other(5));
    let (g, notes) = set_up(&mut board);
    assert_eq!(g.refused(), None);
    assert_eq!(notes, vec![Note::BcdHeld]);
}

#[test]
fn the_controller_is_taken_and_handed_back() {
    let before = Board::new().with_gadget("adb", "other.usb").with_gadget("rockchip", "fe980000.usb");
    let mut board = before.clone();
    let (mut g, _) = set_up(&mut board);
    assert_eq!(g.refused(), None);
    assert_eq!(g.previous_owner(), "rockchip");
    assert_eq!(board.udc_of("rockchip"), "");
    assert_eq!(board.udc_of("adb"), "other.usb");
    g.teardown();
    assert_eq!(board.drive(&mut g), vec![Note::HandedBack]);
    assert_eq!(board.udc_of("rockchip"), "fe980000.usb");
    assert_eq!(board.udc_of("adb"), "other.usb");
    assert_eq!(g.previous_owner(), "");
}

#[test]
fn a_controller_that_cannot_be_handed_back_is_told() {
    let mut board = Board::new().with_gadget("rockchip", "fe980000.usb");
    let (mut g, _) = set_up(&mut board);
    board.broken = Some(("write /sys/kernel/config/usb_gadget/rockchip".to_string(), Errno::Other(16)));
    g.teardown();
    assert_eq!(board.drive(&mut g), vec![Note::NotHandedBack]);
}

#[test]
fn a_busy_directory_is_tried_twenty_times() {
    let mut board = Board::new();
    let (mut g, _) = set_up(&mut board);
    board.broken =
        Some(("rmdir /sys/kernel/config/usb_gadget/goggles/functions".to_string(), Errno::Other(16)));
    board.log.clear();
    g.teardown();
    let notes = board.drive(&mut g);
    assert_eq!(notes, vec![Note::CannotRemove, Note::CannotRemove]);
    let tries = board
        .log
        .iter()
        .filter(|l| l.as_str() == "rmdir /sys/kernel/config/usb_gadget/goggles/functions/ffs.goggles")
        .count();
    assert_eq!(tries, 20);
    assert_eq!(board.log.iter().filter(|l| l.as_str() == "pause 50000").count(), 40);
    assert_eq!(g.refused(), None);
}

#[test]
fn a_directory_that_is_gone_is_removed() {
    let mut board = Board::new();
    let (mut g, _) = set_up(&mut board);
    board.broken = Some(("rmdir".to_string(), Errno::NotFound));
    g.teardown();
    assert!(board.drive(&mut g).is_empty());
}

#[test]
fn teardown_waits_after_unbinding() {
    let mut board = Board::new();
    let (mut g, _) = set_up(&mut board);
    board.log.clear();
    g.teardown();
    board.drive(&mut g);
    assert_eq!(board.log[0], "write /sys/kernel/config/usb_gadget/goggles/UDC \"\\n\"");
    assert_eq!(board.log[1], "pause 200000");
    assert_eq!(board.log[2], "close");
    assert_eq!(board.log[3], "detach /dev/ffs-goggles");
}

// --- attaching -----------------------------------------------------------------

fn attached(board: &mut Board, dir: &str) -> FunctionFsGadget {
    let mut g = gadget();
    g.attach("/ffs", dir, &aoa_identity());
    board.drive(&mut g);
    g
}

fn with_ffs() -> Board {
    let mut board = Board::new();
    board.files.insert("/ffs/ep0".to_string(), String::new());
    board
}

#[test]
fn attaching_only_writes_the_descriptors() {
    let mut board = with_ffs();
    let mut g = attached(&mut board, "");
    assert_eq!(g.refused(), None);
    assert_eq!(
        board.log,
        vec!["exists /ffs/ep0", "open /ffs/ep0", "ep0 66 bytes", "ep0 46 bytes"]
    );
    assert_eq!(g.open_endpoint("ep2"), "/ffs/ep2");
    board.log.clear();
    g.teardown();
    board.drive(&mut g);
    assert_eq!(board.log, vec!["close"]);
}

#[test]
fn attaching_binds_the_gadget_that_is_named() {
    let dir = format!("{}/multi", GADGETS);
    let mut board = with_ffs().with_gadget("multi", "").with_gadget("adb", "fe980000.usb");
    let mut g = attached(&mut board, &dir);
    assert_eq!(g.refused(), None);
    assert_eq!(board.udc_of("multi"), "fe980000.usb");
    assert_eq!(board.udc_of("adb"), "");
    g.teardown();
    board.drive(&mut g);
    assert_eq!(board.udc_of("multi"), "");
    assert_eq!(board.udc_of("adb"), "fe980000.usb");
    assert!(board.dirs.contains(&dir));
}

#[test]
fn why_an_attachment_is_given_up() {
    assert_eq!(attached(&mut Board::new(), "").refused(), Some(Refusal::NoFunctionFs));
    assert_eq!(attached(&mut with_ffs(), "/none").refused(), Some(Refusal::NoSuchGadget));
    assert_eq!(
        attached(&mut with_ffs().broken("ep0 46", Errno::Other(5)), "").refused(),
        Some(Refusal::StringsRejected)
    );
}

#[test]
fn the_options_say_how_to_start() {
    let mut opt = Options::default();
    opt.mount_point = "/mnt/x".to_string();
    let mut board = Board::new();
    let mut g = opt.start_gadget("fe980000.usb".to_string(), &aoa_identity());
    board.drive(&mut g);
    assert_eq!(g.refused(), None);
    assert_eq!(board.mounts["/mnt/x"], "goggles");
    opt.ffs_path = "/ffs".to_string();
    let mut board = with_ffs();
    let mut g = opt.start_gadget(String::new(), &aoa_identity());
    board.drive(&mut g);
    assert_eq!(g.refused(), None);
    assert_eq!(g.open_endpoint("ep1"), "/ffs/ep1");
}

// --- cleaning up -----------------------------------------------------------------

fn clean(board: &mut Board, udc: &str) -> (FunctionFsGadget, Vec<Note>) {
    let mut g = FunctionFsGadget::cleanup_stale("goggles", "", udc);
    let notes = board.drive(&mut g);
    (g, notes)
}

#[test]
fn nothing_to_clean_up() {
    let mut board = Board::new();
    let before = board.clone();
    let (g, notes) = clean(&mut board, "fe980000.usb");
    assert_eq!(g.refused(), None);
    assert_eq!(notes, vec![Note::NothingToCleanUp]);
    assert_eq!(board.state(), before);
}

#[test]
fn a_killed_run_is_cleaned_up() {
    let before = Board::new().with_gadget("rockchip", "fe980000.usb");
    let mut board = before.clone();
    let (g, _) = set_up(&mut board);
    drop(g);
    board.ep0 = None;
    let (g, notes) = clean(&mut board, "fe980000.usb");
    assert_eq!(g.refused(), None);
    assert_eq!(notes, vec![Note::HandedBack]);
    assert_eq!(board.udc_of("rockchip"), "fe980000.usb");
    assert!(board.mounts.is_empty() && board.links.is_empty());
    assert_eq!(board.dirs, before.dirs);
}

#[test]
fn the_first_unbound_gadget_is_taken_for_the_owner() {
    let mut board = Board::new().with_gadget("a", "x.usb").with_gadget("b", "").with_gadget("c", "");
    set_up(&mut board);
    clean(&mut board, "fe980000.usb");
    assert_eq!(board.udc_of("a"), "x.usb");
    assert_eq!(board.udc_of("b"), "fe980000.usb");
    assert_eq!(board.udc_of("c"), "");
}

#[test]
fn without_a_controller_nothing_is_handed_back() {
    let mut board = Board::new().with_gadget("b", "");
    set_up(&mut board);
    let (_, notes) = clean(&mut board, "");
    assert!(notes.is_empty());
    assert_eq!(board.udc_of("b"), "");
}

#[test]
fn a_mount_point_left_behind_is_cleaned_up() {
    let mut board = Board::new();
    board.dirs.insert("/mnt/y".to_string());
    let mut g = FunctionFsGadget::cleanup_stale("goggles", "/mnt/y", "");
    board.drive(&mut g);
    assert_eq!(g.refused(), None);
    assert!(!board.dirs.contains("/mnt/y"));
}

#[test]
fn cleaning_up_needs_configfs() {
    let mut board = Board::new().broken("exists", Errno::Other(2));
    let (g, _) = clean(&mut board, "");
    assert_eq!(g.refused(), Some(Refusal::NoConfigfs));
}
