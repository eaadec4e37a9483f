use orbit_rs::goggles_net::handshake::{build_control_ack, build_opener, hex, is_opener_ack};

fn hex_decode(s: &str) -> Vec<u8> {
    s.split_whitespace()
        .map(|part| u8::from_str_radix(part, 16).unwrap())
        .collect()
}

#[test]
fn known_opener() {
    let packet = build_opener(0x1234, 0x1000);
    assert_eq!(packet.len(), 48);
    assert_eq!(
        hex(&packet),
        "30 80 34 12 00 00 00 96 00 10 64 00 64 00 c0 05 14 00 00 64 00 00 01 90 01 c0 05 14 00 00 64 00 14 00 64 00 c0 05 14 00 00 64 00 01 01 04 01 02"
    );
}

#[test]
fn ack_matches_length_and_session() {
    assert!(is_opener_ack(&[0x09, 0x80, 0x34, 0x12, 0, 0, 0, 0, 0], 0x1234));
    assert!(!is_opener_ack(&[0x09, 0x80, 0x35, 0x12, 0, 0, 0, 0, 0], 0x1234));
}

#[test]
fn control_ack_from_real_capture() {
    let rx = hex_decode(
        "22 80 f5 71 00 00 01 27 00 66 00 66 00 00 00 00 00 66 00 66 00 00 00 00 00 66 00 66 00 00 00 00 00 00",
    );
    let ack = build_control_ack(&rx, 0x71f5).unwrap();
    assert_eq!(
        hex(&ack),
        "22 80 f5 71 00 00 04 22 00 66 00 66 00 00 00 00 00 66 00 66 00 00 00 00 00 66 00 66 00 00 00 00 00 00"
    );
}
