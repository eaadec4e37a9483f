use orbit_rs::common::{comma_separated, next_frame, Errno, WriteAll, WriteResult, WriteStep};

fn frame(channel: u8, payload: &[u8]) -> Vec<u8> {
    let mut v = vec![0x55, 0xCC, channel, 0x57, payload.len() as u8, (payload.len() >> 8) as u8, 1, 0];
    v.extend_from_slice(payload);
    v
}

fn all_frames(buf: &[u8]) -> (Vec<(u8, Vec<u8>)>, usize) {
    let mut pos = 0;
    let mut out = Vec::new();
    while let Some(f) = next_frame(buf, &mut pos) {
        out.push((f.channel, f.payload.to_vec()));
    }
    (out, pos)
}

#[test]
fn a_frame_is_unwrapped() {
    let buf = frame(0x4A, &[1, 2, 3]);
    assert_eq!(all_frames(&buf), (vec![(0x4A, vec![1, 2, 3])], 11));
}

#[test]
fn an_empty_frame_is_a_frame() {
    let buf = frame(0x10, &[]);
    assert_eq!(all_frames(&buf), (vec![(0x10, vec![])], 8));
}

#[test]
fn garbage_between_frames_is_skipped() {
    let mut buf = vec![0xff, 0x55, 0x00, 0x55];
    buf.extend(frame(0x4A, &[9]));
    buf.extend([0xCC, 0x55]);
    buf.extend(frame(0x4B, &[8, 7]));
    let (frames, pos) = all_frames(&buf);
    assert_eq!(frames, vec![(0x4A, vec![9]), (0x4B, vec![8, 7])]);
    assert_eq!(pos, buf.len());
}

#[test]
fn an_incomplete_frame_waits() {
    let whole = frame(0x4A, &[1, 2, 3, 4]);
    for cut in 0..whole.len() {
        let mut pos = 0;
        assert!(next_frame(&whole[..cut], &mut pos).is_none());
        assert_eq!(pos, 0);
    }
}

#[test]
fn the_length_is_little_endian() {
    let payload = vec![7u8; 0x0123];
    let buf = frame(0x4A, &payload);
    assert_eq!(buf[4], 0x23);
    assert_eq!(buf[5], 0x01);
    assert_eq!(all_frames(&buf).0[0].1.len(), 0x0123);
}

#[test]
fn frames_do_not_depend_on_how_they_are_cut() {
    let mut buf = vec![1, 2, 3];
    buf.extend(frame(0x4A, &[1; 20]));
    buf.extend(frame(0x4B, &[2; 3]));
    buf.extend([0x55; 5]);
    buf.extend(frame(0x4A, &[3; 9]));
    let (whole, _) = all_frames(&buf);
    for cut in 0..=buf.len() {
        let (mut first, used) = all_frames(&buf[..cut]);
        let (second, _) = all_frames(&buf[used..]);
        first.extend(second);
        assert_eq!(first, whole);
    }
}

#[test]
fn a_list_for_the_user() {
    let v: Vec<String> = ["a", "b", "c"].iter().map(|s| s.to_string()).collect();
    assert_eq!(comma_separated(&v), "a, b, c");
    assert_eq!(comma_separated(&v[..1]), "a");
    assert_eq!(comma_separated(&[]), "");
}

#[test]
fn short_and_interrupted_writes_are_retried() {
    let mut w = WriteAll::new(10);
    assert_eq!(w.next(), WriteStep::WriteFrom(0));
    assert_eq!(w.report(WriteResult::Wrote(4)), WriteStep::WriteFrom(4));
    assert_eq!(w.report(WriteResult::Failed(Errno::Interrupted)), WriteStep::WriteFrom(4));
    assert_eq!(w.report(WriteResult::Wrote(6)), WriteStep::Complete);
    assert_eq!(w.next(), WriteStep::Complete);
}

#[test]
fn any_other_write_error_ends_it() {
    let mut w = WriteAll::new(3);
    assert_eq!(
        w.report(WriteResult::Failed(Errno::Other(32))),
        WriteStep::Broken(Errno::Other(32))
    );
    assert_eq!(
        w.report(WriteResult::Failed(Errno::Again)),
        WriteStep::Broken(Errno::Again)
    );
}

#[test]
fn nothing_to_write_is_complete_at_once() {
    assert_eq!(WriteAll::new(0).next(), WriteStep::Complete);
}

#[test]
fn only_two_errors_are_transient() {
    assert!(Errno::Interrupted.is_transient());
    assert!(Errno::Again.is_transient());
    for e in [Errno::Shutdown, Errno::NoDevice, Errno::Exists, Errno::NotFound, Errno::Other(5)] {
        assert!(!e.is_transient());
    }
}
