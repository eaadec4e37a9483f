use orbit_rs::capture::find_sps;
use orbit_rs::capture::video::VideoStream;

fn frame(channel: u8, payload: &[u8]) -> Vec<u8> {
    let mut v = vec![0x55, 0xCC, channel, 0, payload.len() as u8, (payload.len() >> 8) as u8, 0, 0];
    v.extend_from_slice(payload);
    v
}

const SPS: [u8; 6] = [0, 0, 0, 1, 0x67, 0x42];

#[test]
fn sps_is_found() {
    assert_eq!(find_sps(&SPS), Some(0));
    assert_eq!(find_sps(&[9, 9, 0, 0, 0, 1, 0x67]), Some(2));
    assert_eq!(find_sps(&[0, 0, 0, 0, 1, 0x27]), Some(1));
}

#[test]
fn the_first_sps_counts() {
    assert_eq!(find_sps(&[0, 0, 0, 1, 0x65, 0, 0, 0, 1, 0x67, 0, 0, 0, 1, 0x67]), Some(5));
}

#[test]
fn what_is_no_sps() {
    assert_eq!(find_sps(&[]), None);
    assert_eq!(find_sps(&[0, 0, 0, 1]), None);
    assert_eq!(find_sps(&[0, 0, 0, 1, 0x68]), None);
    assert_eq!(find_sps(&[0, 0, 1, 0x67, 0, 0]), None);
}

#[test]
fn the_stream_starts_at_the_first_sps() {
    let mut s = VideoStream::new();
    assert!(s.feed(&frame(0x4A, &[1, 2, 3])).is_empty());
    let out = s.feed(&frame(0x4A, &[7, 7, 0, 0, 0, 1, 0x67, 5]));
    assert_eq!(out.len(), 1);
    assert_eq!(out[0].payload, vec![0, 0, 0, 1, 0x67, 5]);
    assert!(out[0].starts);
    let out = s.feed(&frame(0x4A, &[1, 2, 3]));
    assert_eq!(out[0].payload, vec![1, 2, 3]);
    assert!(!out[0].starts);
}

#[test]
fn other_channels_and_empty_frames_are_passed_over() {
    let mut s = VideoStream::new();
    assert!(s.feed(&frame(0x4B, &SPS)).is_empty());
    assert!(s.feed(&frame(0x4A, &[])).is_empty());
    assert_eq!(s.feed(&frame(0x4A, &SPS)).len(), 1);
    assert!(s.feed(&frame(0x4A, &[])).is_empty());
}

#[test]
fn video_does_not_depend_on_how_the_reads_are_cut() {
    let mut bytes = vec![3, 1, 4];
    bytes.extend(frame(0x4A, &[1, 2]));
    bytes.extend(frame(0x4A, &SPS));
    bytes.extend(frame(0x10, &[5; 30]));
    bytes.extend(frame(0x4A, &[6; 40]));
    let collect = |pieces: &[&[u8]]| -> Vec<u8> {
        let mut s = VideoStream::new();
        let mut all = Vec::new();
        for p in pieces {
            for c in s.feed(p) {
                all.extend(c.payload);
            }
        }
        all
    };
    let whole = collect(&[&bytes[..]]);
    assert_eq!(whole.len(), SPS.len() + 40);
    for cut in 0..=bytes.len() {
        assert_eq!(collect(&[&bytes[..cut], &bytes[cut..]]), whole);
    }
}

#[test]
fn every_mebibyte_is_reported() {
    let mut s = VideoStream::new();
    let mut first = SPS.to_vec();
    first.resize(0x8000, 0xAA);
    assert_eq!(s.feed(&frame(0x4A, &first))[0].wrote_kib, None);
    for _ in 0..30 {
        assert_eq!(s.feed(&frame(0x4A, &vec![1; 0x8000]))[0].wrote_kib, None);
    }
    assert_eq!(s.feed(&frame(0x4A, &vec![1; 0x8000]))[0].wrote_kib, Some(1024));
    assert_eq!(s.feed(&frame(0x4A, &vec![1; 0x8000]))[0].wrote_kib, None);
}
