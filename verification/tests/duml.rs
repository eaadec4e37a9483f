use orbit_rs::capture::duml::{command, CommandFeed, COMMANDS, COMMAND_PAUSE, ROUND_PAUSE};
use orbit_rs::capture::{build_command, crc16, crc8};
use orbit_rs::common::next_frame;
use orbit_rs::goggles_net::handshake::hex;

#[test]
fn checksums_of_the_standard_text() {
    assert_eq!(crc8(b"123456789"), 0xfb);
    assert_eq!(crc16(b"123456789"), 0x7109);
}

#[test]
fn checksums_of_nothing_are_the_seeds() {
    assert_eq!(crc8(&[]), 0x77);
    assert_eq!(crc16(&[]), 0x3692);
}

#[test]
fn recorded_headers_carry_their_checksum() {
    for i in 0..COMMANDS {
        let c = command(i);
        assert_eq!(c[0], 0x55);
        assert_eq!(c[1] as usize, c.len());
        assert_eq!(crc8(&c[..3]), c[3]);
    }
}

#[test]
fn recorded_packets_carry_their_checksum() {
    // The seventh was recorded with a stale checksum; it is filled in on the way out.
    for i in (0..COMMANDS).filter(|i| *i != 6) {
        let c = command(i);
        let n = c.len();
        assert_eq!(crc16(&c[..n - 2]).to_le_bytes(), [c[n - 2], c[n - 1]]);
    }
}

#[test]
fn sealing_with_its_own_number_changes_nothing() {
    for i in (0..COMMANDS).filter(|i| *i != 6) {
        let c = command(i);
        let out = build_command(&c, u16::from_le_bytes([c[6], c[7]]));
        assert_eq!(&out[8..], &c[..]);
    }
}

#[test]
fn a_known_command() {
    assert_eq!(
        hex(&build_command(&command(8), 0x1234)),
        "55 cc 49 57 0d 00 34 12 55 0d 04 33 02 0e 34 12 00 00 00 ed c9"
    );
}

#[test]
fn a_command_is_one_frame_on_the_command_channel() {
    let out = build_command(&command(5), 7);
    let mut pos = 0;
    let f = next_frame(&out, &mut pos).unwrap();
    assert_eq!(f.channel, 0x49);
    assert_eq!(f.payload, &out[8..]);
    assert_eq!(pos, out.len());
}

#[test]
fn sealing_twice_is_sealing_once() {
    let once = build_command(&command(2), 0xbeef);
    let twice = build_command(&once[8..], 0xbeef);
    assert_eq!(once, twice);
}

#[test]
fn the_shortest_packet_can_be_sealed() {
    let out = build_command(&[0; 8], 1);
    assert_eq!(out.len(), 16);
    let p = &out[8..];
    assert_eq!(p[3], crc8(&p[..3]));
    assert_eq!(crc16(&p[..6]).to_le_bytes(), [p[6], p[7]]);
}

#[test]
fn the_chatter_goes_round() {
    let mut feed = CommandFeed::new();
    for n in 0..(3 * COMMANDS) {
        let step = feed.next_packet();
        assert_eq!(step.packet, build_command(&command(n % COMMANDS), n as u16));
        assert_eq!(step.pause_micros, COMMAND_PAUSE);
        assert_eq!(step.round_over, n % COMMANDS == COMMANDS - 1);
    }
    assert_eq!(COMMAND_PAUSE, 20_000);
    assert_eq!(ROUND_PAUSE, 1_000_000);
}

#[test]
fn the_app_command_is_among_them() {
    assert_eq!(&command(5)[16..19], b"APP");
}
