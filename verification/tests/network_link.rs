use orbit_rs::common::Errno;
use orbit_rs::goggles_net::capture::{after_check, after_open, after_write, Incoming, Link, LinkEnd, Liveness};
use orbit_rs::goggles_net::handshake::{
    build_control_ack, build_opener, fallback_bytes, hex, is_opener_ack, packet_type, session_from_bytes, Heard,
    Opener, OpenerTurn, Session, MILLI, RETRY_MS,
};
use orbit_rs::goggles_net::iface::{
    bring_up, find_by_usb_ids, matches_ids, parse_hex_id, usb_device_dir, usb_parent_matches, BringUp, IdFiles,
    NetEntry, WaitFor, WaitStep, SECOND,
};
use orbit_rs::goggles_net::video::{parse_fragment, Assembler};
use orbit_rs::goggles_net::{DJI_VID, RNDIS_PID};

const SESSION: u16 = 0x71f5;

fn envelope(kind: u8, len: usize) -> Vec<u8> {
    let mut p = vec![0u8; len];
    p[0] = len as u8;
    p[1] = 0x80 | (len >> 8) as u8;
    p[2..4].copy_from_slice(&SESSION.to_le_bytes());
    p[6] = kind;
    p[7] = p[..7].iter().fold(0, |a, b| a ^ b);
    p
}

fn fragment(unit: u8, total: u8, index: u8, payload: &[u8]) -> Vec<u8> {
    let mut p = envelope(0x02, 20 + payload.len());
    p[16] = unit;
    p[17] = total | (index & 1) << 7;
    p[18] = index >> 1;
    p[20..].copy_from_slice(payload);
    p
}

fn unit_of(i: Incoming) -> Option<Vec<u8>> {
    match i {
        Incoming::Video { unit, .. } => unit.map(|u| u.bytes),
        _ => panic!("not video"),
    }
}

fn feed(a: &mut Assembler, p: &[u8]) -> Option<Vec<u8>> {
    a.feed(&parse_fragment(p).unwrap())
}

// --- handshake ---------------------------------------------------------------

#[test]
fn the_opener_sequence_is_a_multiple_of_eight() {
    assert_eq!(build_opener(1, 0x1007), build_opener(1, 0x1000));
    assert_eq!(build_opener(1, 0x1008)[8..10], [0x08, 0x10]);
}

#[test]
fn an_opener_ack_has_nine_bytes() {
    assert!(is_opener_ack(&[0, 0, 0x34, 0x12, 0, 0, 0, 0, 0], 0x1234));
    assert!(!is_opener_ack(&[0, 0, 0x34, 0x12, 0, 0, 0, 0], 0x1234));
    assert!(!is_opener_ack(&[0, 0, 0x34, 0x12, 0, 0, 0, 0, 0, 0], 0x1234));
}

#[test]
fn packet_types() {
    assert_eq!(packet_type(&envelope(0x02, 8), SESSION), Some(0x02));
    assert_eq!(packet_type(&envelope(0x09, 300), SESSION), Some(0x09));
    assert_eq!(packet_type(&envelope(0x02, 8), 1), None);
    assert_eq!(packet_type(&envelope(0x02, 8)[..7], SESSION), None);
    let mut torn = envelope(0x02, 40);
    torn.pop();
    assert_eq!(packet_type(&torn, SESSION), None);
    let mut bad = envelope(0x02, 40);
    bad[7] ^= 1;
    assert_eq!(packet_type(&bad, SESSION), None);
}

#[test]
fn only_control_packets_are_acknowledged() {
    assert!(build_control_ack(&envelope(0x01, 34), SESSION).is_some());
    assert!(build_control_ack(&envelope(0x01, 40), SESSION).is_some());
    assert!(build_control_ack(&envelope(0x01, 33), SESSION).is_none());
    assert!(build_control_ack(&envelope(0x02, 34), SESSION).is_none());
    assert!(build_control_ack(&envelope(0x01, 34), SESSION + 1).is_none());
}

#[test]
fn an_ack_is_a_valid_packet_itself() {
    let mut rx = envelope(0x01, 34);
    for (i, b) in rx.iter_mut().enumerate().skip(8) {
        *b = i as u8;
    }
    let ack = build_control_ack(&rx, SESSION).unwrap();
    assert_eq!(packet_type(&ack, SESSION), Some(0x04));
    assert_eq!(ack[8..], rx[8..]);
}

#[test]
fn bytes_in_hex() {
    assert_eq!(hex(&[]), "");
    assert_eq!(hex(&[0x0a]), "0a");
    assert_eq!(hex(&[0x00, 0xff, 0x5c]), "00 ff 5c");
}

#[test]
fn a_session_from_random_bytes() {
    let s = session_from_bytes([0x34, 0x12, 0xff, 0xff]);
    assert_eq!((s.id, s.sequence), (0x1234, 0xfff8));
    let s = session_from_bytes([0, 0, 7, 0]);
    assert_eq!((s.id, s.sequence), (1, 0));
}

#[test]
fn bytes_without_a_random_source() {
    assert_eq!(fallback_bytes(0x1122_3344_5566_7788, 0), [0x88, 0x77, 0x66, 0x55]);
    assert_eq!(fallback_bytes(0x1122_3344_5566_7788, 0x0102_0304), [0x8c, 0x74, 0x64, 0x54]);
}

#[test]
fn the_opener_is_sent_until_time_is_up() {
    let session = Session { id: 0x1234, sequence: 0x1000 };
    let mut o = Opener::new(session, 10 * MILLI, 500);
    assert!(matches!(o.turn(10 * MILLI), OpenerTurn::Send(p) if p == build_opener(0x1234, 0x1000)));
    assert!(matches!(o.turn(509 * MILLI), OpenerTurn::Send(_)));
    assert!(matches!(o.turn(510 * MILLI), OpenerTurn::GiveUp));
    assert_eq!(o.attempts(), 2);
    assert_eq!(RETRY_MS, 250);
}

#[test]
fn the_session_is_live_once_the_opener_is_acknowledged() {
    let session = Session { id: 0x1234, sequence: 8 };
    let mut o = Opener::new(session, 0, 500);
    o.turn(0);
    assert_eq!(o.heard(1, Some(&[9, 0x80, 0x34, 0x12, 0, 0, 0, 0, 0])), Heard::Live(session));
    assert!(matches!(o.heard(1, Some(&[9, 0x80, 0x35, 0x12, 0, 0, 0, 0, 0])), Heard::Listen { .. }));
    assert!(matches!(o.heard(1, Some(&[])), Heard::Listen { .. }));
}

#[test]
fn listening_ends_when_the_opener_is_due() {
    let mut o = Opener::new(Session { id: 1, sequence: 0 }, 1_000 * MILLI, 600);
    assert_eq!(o.heard(1_000 * MILLI, None), Heard::Turn);
    o.turn(1_000 * MILLI);
    assert_eq!(o.heard(1_000 * MILLI, None), Heard::Listen { ns: 250_000_000 });
    assert_eq!(o.heard(1_249 * MILLI, Some(&[7])), Heard::Listen { ns: 1_000_000 });
    assert_eq!(o.heard(1_250 * MILLI, Some(&[7])), Heard::Turn);
    o.turn(1_250 * MILLI);
    o.turn(1_500 * MILLI);
    // Time is up before the next round is over.
    assert_eq!(o.heard(1_500 * MILLI, None), Heard::Listen { ns: 100_000_000 });
    assert_eq!(o.heard(1_600 * MILLI, None), Heard::Turn);
    assert!(matches!(o.turn(1_600 * MILLI), OpenerTurn::GiveUp));
}

#[test]
fn a_chattering_peer_neither_stops_the_opener_nor_the_clock() {
    let mut o = Opener::new(Session { id: 1, sequence: 0 }, 0, 1_000);
    let mut sent = Vec::new();
    let mut now = 0;
    let gave_up = loop {
        match o.heard(now, if now == 0 { None } else { Some(&[1, 2, 3]) }) {
            Heard::Live(_) => panic!("not acknowledged"),
            Heard::Listen { .. } => now += 10 * MILLI,
            Heard::Turn => match o.turn(now) {
                OpenerTurn::Send(_) => sent.push(now / MILLI),
                OpenerTurn::GiveUp => break now / MILLI,
            },
        }
    };
    assert_eq!(sent, vec![0, 250, 500, 750]);
    assert_eq!(gave_up, 1_000);
    assert_eq!(o.attempts(), 4);
}

// --- reassembly --------------------------------------------------------------

#[test]
fn a_fragment_header() {
    let p = fragment(7, 5, 3, &[1, 2]);
    let f = parse_fragment(&p).unwrap();
    assert_eq!((f.unit_id, f.total_parts, f.part_index, f.payload), (7, 5, 3, &[1u8, 2][..]));
    assert!(parse_fragment(&p[..19]).is_none());
    assert_eq!(parse_fragment(&p[..20]).unwrap().payload.len(), 0);
}

#[test]
fn the_part_index_has_six_bits() {
    let mut p = fragment(0, 0, 0, &[]);
    p[17] = 0xff;
    p[18] = 0xff;
    let f = parse_fragment(&p).unwrap();
    assert_eq!((f.total_parts, f.part_index), (127, 63));
}

#[test]
fn fragments_may_come_in_any_order() {
    for order in [[0, 1, 2], [0, 2, 1], [1, 0, 2], [1, 2, 0], [2, 0, 1], [2, 1, 0]] {
        let mut a = Assembler::new();
        let mut out = None;
        for (n, i) in order.iter().enumerate() {
            out = feed(&mut a, &fragment(1, 3, *i, &[*i, *i]));
            assert_eq!(out.is_some(), n == 2);
        }
        assert_eq!(out.unwrap(), vec![0, 0, 1, 1, 2, 2]);
    }
}

#[test]
fn a_duplicate_changes_nothing() {
    let mut a = Assembler::new();
    assert!(feed(&mut a, &fragment(1, 2, 0, &[1])).is_none());
    assert!(feed(&mut a, &fragment(1, 2, 0, &[9])).is_none());
    assert_eq!(feed(&mut a, &fragment(1, 2, 1, &[2])), Some(vec![1, 2]));
}

#[test]
fn a_partial_unit_is_dropped() {
    let mut a = Assembler::new();
    assert!(feed(&mut a, &fragment(1, 2, 0, &[1])).is_none());
    assert_eq!(a.dropped_partial(), 0);
    assert!(feed(&mut a, &fragment(2, 2, 0, &[2])).is_none());
    assert_eq!(a.dropped_partial(), 1);
    assert_eq!(feed(&mut a, &fragment(2, 2, 1, &[3])), Some(vec![2, 3]));
    assert_eq!(a.dropped_partial(), 1);
}

#[test]
fn a_unit_of_one_part_is_complete_at_once() {
    let mut a = Assembler::new();
    assert_eq!(feed(&mut a, &fragment(1, 1, 0, &[4, 5])), Some(vec![4, 5]));
    assert_eq!(feed(&mut a, &fragment(2, 1, 0, &[6])), Some(vec![6]));
    assert_eq!(a.dropped_partial(), 0);
}

#[test]
fn a_part_out_of_place_is_ignored() {
    let mut a = Assembler::new();
    assert!(feed(&mut a, &fragment(1, 2, 2, &[1])).is_none());
    assert!(feed(&mut a, &fragment(1, 2, 0, &[2])).is_none());
    assert_eq!(feed(&mut a, &fragment(1, 2, 1, &[3])), Some(vec![2, 3]));
}

// --- the link ----------------------------------------------------------------

#[test]
fn control_packets_get_their_ack() {
    let mut link = Link::new(SESSION, 0);
    let rx = envelope(0x01, 34);
    for n in 1..=3u64 {
        match link.receive(n, &rx) {
            Incoming::Control { ack, number } => {
                assert_eq!(number, n);
                assert_eq!(ack, build_control_ack(&rx, SESSION).unwrap());
            }
            _ => panic!("not acknowledged"),
        }
    }
    assert_eq!(link.control_acks(), 3);
}

#[test]
fn video_becomes_units() {
    let mut link = Link::new(SESSION, 0);
    assert!(matches!(
        link.receive(1, &fragment(1, 2, 0, &[1])),
        Incoming::Video { first: true, unit: None }
    ));
    assert_eq!(unit_of(link.receive(2, &fragment(1, 2, 1, &[2]))), Some(vec![1, 2]));
    assert!(matches!(
        link.receive(3, &envelope(0x02, 12)),
        Incoming::Video { first: false, unit: None }
    ));
    assert_eq!(link.units_written(), 1);
    assert_eq!(link.dropped_partial(), 0);
}

#[test]
fn other_and_foreign_packets() {
    let mut link = Link::new(SESSION, 0);
    assert!(matches!(link.receive(1, &envelope(0x07, 8)), Incoming::Other(0x07)));
    assert!(matches!(link.receive(1, &envelope(0x01, 20)), Incoming::Other(0x01)));
    assert!(matches!(link.receive(1, &[1, 2, 3]), Incoming::Foreign));
    assert!(matches!(link.receive(1, &[]), Incoming::Foreign));
}

#[test]
fn ten_seconds_of_silence_are_fatal() {
    let mut link = Link::new(SESSION, 0);
    assert_eq!(link.check(9_999 * MILLI), Liveness::Fine);
    assert_eq!(link.check(10_000 * MILLI), Liveness::Dead(10_000));
    link.receive(9_000 * MILLI, &[0]);
    assert_eq!(link.check(10_000 * MILLI), Liveness::Fine);
    assert_eq!(link.check(19_001 * MILLI), Liveness::Dead(10_001));
}

#[test]
fn quiet_video_is_reported_once_until_it_resumes() {
    let mut link = Link::new(SESSION, 0);
    let control = envelope(0x01, 34);
    assert_eq!(unit_of(link.receive(0, &fragment(1, 1, 0, &[1]))), Some(vec![1]));
    link.receive(2_400 * MILLI, &control);
    assert_eq!(link.check(2_499 * MILLI), Liveness::Fine);
    assert_eq!(link.check(2_500 * MILLI), Liveness::VideoQuiet);
    link.receive(4_000 * MILLI, &control);
    assert_eq!(link.check(4_100 * MILLI), Liveness::Fine);
    match link.receive(4_200 * MILLI, &fragment(2, 1, 0, &[2])) {
        Incoming::Video { unit: Some(u), .. } => {
            assert!(u.resumed);
            assert_eq!(u.number, 2);
        }
        _ => panic!("no unit"),
    }
    link.receive(6_600 * MILLI, &control);
    assert_eq!(link.check(6_700 * MILLI), Liveness::VideoQuiet);
}

#[test]
fn the_first_part_of_the_first_unit_is_not_quiet() {
    let mut link = Link::new(SESSION, 0);
    let control = envelope(0x01, 34);
    link.receive(1_000 * MILLI, &control);
    assert_eq!(unit_of(link.receive(1_100 * MILLI, &fragment(1, 2, 0, &[1]))), None);
    assert_eq!(link.check(1_100 * MILLI), Liveness::Fine);
    link.receive(3_000 * MILLI, &control);
    assert_eq!(link.check(3_599 * MILLI), Liveness::Fine);
    assert_eq!(link.check(3_600 * MILLI), Liveness::VideoQuiet);
}

#[test]
fn quiet_video_without_control_is_not_reported() {
    let mut link = Link::new(SESSION, 0);
    link.receive(0, &fragment(1, 1, 0, &[1]));
    assert_eq!(link.check(5_000 * MILLI), Liveness::Fine);
}

#[test]
fn before_any_video_there_is_nothing_to_report() {
    let mut link = Link::new(SESSION, 0);
    link.receive(5_000 * MILLI, &envelope(0x01, 34));
    assert_eq!(link.check(5_000 * MILLI), Liveness::Fine);
}

// --- the interface -----------------------------------------------------------

fn ids(v: &str, p: &str) -> IdFiles {
    IdFiles { vendor: Some(v.to_string()), product: Some(p.to_string()) }
}

#[test]
fn ids_in_hex() {
    for s in ["2ca3", "0x2ca3", "0x0x2ca3", "0020", "ffff", "10000", "", "0x", "g", "+20"] {
        assert_eq!(parse_hex_id(s), u16::from_str_radix(s.trim_start_matches("0x"), 16).ok(), "{:?}", s);
    }
    assert_eq!(parse_hex_id("0X20"), None);
}

#[test]
fn a_device_is_known_by_both_ids() {
    assert!(matches_ids(&ids("2ca3\n", " 0020 "), DJI_VID, RNDIS_PID));
    assert!(!matches_ids(&ids("2ca3", "0021"), DJI_VID, RNDIS_PID));
    assert!(!matches_ids(&IdFiles { vendor: Some("2ca3".to_string()), product: None }, DJI_VID, RNDIS_PID));
}

#[test]
fn the_way_up_is_bounded() {
    let none = || IdFiles { vendor: None, product: None };
    let mut levels: Vec<IdFiles> = (0..5).map(|_| none()).collect();
    levels.push(ids("2ca3", "20"));
    assert!(usb_parent_matches(&levels, DJI_VID, RNDIS_PID));
    levels.insert(0, none());
    assert!(!usb_parent_matches(&levels, DJI_VID, RNDIS_PID));
    assert!(!usb_parent_matches(&[], DJI_VID, RNDIS_PID));
    assert_eq!(usb_device_dir(&[false, true, true]), Some(1));
    assert_eq!(usb_device_dir(&[false, false, false, false, false, false, true]), None);
}

#[test]
fn the_first_interface_of_the_goggles() {
    let entry = |name: &str, levels| NetEntry { name: name.to_string(), levels };
    let net = [
        entry("lo", None),
        entry("eth0", Some(vec![ids("1d6b", "0002")])),
        entry("usb0", Some(vec![ids("", ""), ids("2ca3", "0020")])),
        entry("usb1", Some(vec![ids("2ca3", "0020")])),
    ];
    assert_eq!(find_by_usb_ids(&net, DJI_VID, RNDIS_PID), Some("usb0".to_string()));
    assert_eq!(find_by_usb_ids(&net[..2], DJI_VID, RNDIS_PID), None);
}

#[test]
fn waiting_for_the_interface() {
    let mut w = WaitFor::new(SECOND, 1);
    assert!(matches!(w.look(None, SECOND), WaitStep::Again { announce: true }));
    assert!(matches!(w.look(None, 2 * SECOND - 1), WaitStep::Again { announce: false }));
    assert!(matches!(w.look(None, 2 * SECOND), WaitStep::GiveUp { announce: false }));
    assert!(matches!(w.look(Some("usb0".to_string()), 3 * SECOND), WaitStep::Found(n) if n == "usb0"));
    let mut now = WaitFor::new(0, 0);
    assert!(matches!(now.look(None, 0), WaitStep::GiveUp { announce: true }));
}

/// Bring an interface up, with one step failing if it is named: the steps that
/// ran, and what it came to.
fn brought_up(failing: &str) -> (Vec<String>, Result<(), String>) {
    let mut ran = Vec::new();
    let mut work = bring_up::<String>("usb0", "192.168.60.1/24");
    while let Some(step) = work.next() {
        let text = match step {
            BringUp::Run { program, args, .. } => format!("{} {}", program, args.join(" ")),
            BringUp::DisableAutosuspend => "autosuspend".to_string(),
        };
        let outcome = if !failing.is_empty() && text.starts_with(failing) {
            Err(format!("{} failed", failing))
        } else {
            Ok(())
        };
        ran.push(text);
        work.report(outcome);
    }
    (ran, work.result())
}

const BRING_UP: [&str; 4] = [
    "nmcli device set usb0 managed no",
    "autosuspend",
    "ip link set usb0 up",
    "ip addr add 192.168.60.1/24 dev usb0",
];

#[test]
fn bringing_the_interface_up() {
    let (ran, result) = brought_up("");
    assert_eq!(ran, BRING_UP);
    assert_eq!(result, Ok(()));
}

#[test]
fn failures_that_do_not_matter_are_passed_over() {
    for failing in ["nmcli", "autosuspend", "ip addr"] {
        let (ran, result) = brought_up(failing);
        assert_eq!(ran, BRING_UP);
        assert_eq!(result, Ok(()));
    }
}

#[test]
fn a_link_that_does_not_come_up_ends_it() {
    let (ran, result) = brought_up("ip link");
    assert_eq!(ran, BRING_UP[..3]);
    assert_eq!(result, Err("ip link failed".to_string()));
}

#[test]
fn only_the_link_is_required() {
    let mut work = bring_up::<()>("usb0", "10.0.0.1/8");
    let mut required = Vec::new();
    while let Some(step) = work.next() {
        required.push(step.is_required());
        work.report(Ok(()));
    }
    assert_eq!(required, vec![false, false, true, false]);
}

// --- how a run ends ------------------------------------------------------------

#[test]
fn a_probe_leaves_once_the_session_is_open() {
    assert_eq!(after_open(true), Some(LinkEnd::Probed));
    assert_eq!(after_open(false), None);
    assert_eq!(LinkEnd::Probed.exit_code(), 0);
}

#[test]
fn a_failed_write_ends_the_run() {
    assert_eq!(after_write(Ok(())), None);
    assert_eq!(after_write(Err(Errno::Other(32))), Some(LinkEnd::SinkFailed(Errno::Other(32))));
    assert_eq!(LinkEnd::SinkFailed(Errno::Other(32)).exit_code(), 1);
}

#[test]
fn a_dead_link_or_a_stop_ends_the_run() {
    assert_eq!(after_check(false, Liveness::Fine), None);
    assert_eq!(after_check(false, Liveness::VideoQuiet), None);
    assert_eq!(after_check(true, Liveness::Fine), Some(LinkEnd::Stopped));
    assert_eq!(after_check(true, Liveness::Dead(10_000)), Some(LinkEnd::Dead(10_000)));
    assert_eq!(LinkEnd::Stopped.exit_code(), 0);
    assert_eq!(LinkEnd::Dead(10_000).exit_code(), 1);
}
