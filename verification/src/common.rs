//! The outer framing of the goggles' USB stream, and small helpers shared by
//! the gadget and the capture runtime.
use vstd::prelude::*;
use vstd::slice::slice_subrange;

use crate::text::{join, joined, law_joined_splits, views};

verus! {

/// Everything the goggles send is wrapped in 55 CC frames:
/// `55 CC <channel> <..> <length lo> <length hi> <seq lo> <seq hi> <payload>`.
pub const FRAME_HEADER: usize = 8;

/// One frame, borrowing its payload from the buffer it was found in.
pub struct Frame<'a> {
    pub channel: u8,
    pub payload: &'a [u8],
}

/// What a frame says: its channel and the bytes it carries.
#[verifier::ext_equal]
pub struct FrameView {
    pub channel: u8,
    pub payload: Seq<u8>,
}

impl<'a> View for Frame<'a> {
    type V = FrameView;

    open spec fn view(&self) -> FrameView {
        FrameView { channel: self.channel, payload: self.payload@ }
    }
}

/// A whole header starts at `p`.
pub open spec fn header_at(buf: Seq<u8>, p: int) -> bool {
    &&& 0 <= p
    &&& p + FRAME_HEADER <= buf.len()
    &&& buf[p] == 0x55
    &&& buf[p + 1] == 0xCC
}

/// The payload length that the header at `p` declares.
pub open spec fn declared_len(buf: Seq<u8>, p: int) -> int {
    buf[p + 4] + 256 * buf[p + 5]
}

/// Where the frame at `p` ends.
pub open spec fn frame_end(buf: Seq<u8>, p: int) -> int {
    p + FRAME_HEADER + declared_len(buf, p)
}

/// A frame starts at `p` and is entirely in the buffer.
pub open spec fn frame_at(buf: Seq<u8>, p: int) -> bool {
    header_at(buf, p) && frame_end(buf, p) <= buf.len()
}

/// The frame at `p`.
pub open spec fn frame_of(buf: Seq<u8>, p: int) -> FrameView {
    FrameView {
        channel: buf[p + 2],
        payload: buf.subrange(p + FRAME_HEADER, frame_end(buf, p)),
    }
}

/// The first position at or after `pos` where a header starts, or where too
/// few bytes are left to tell.
pub open spec fn resync(buf: Seq<u8>, pos: int) -> int
    decreases buf.len() - pos,
{
    if buf.len() - pos < FRAME_HEADER || header_at(buf, pos) {
        pos
    } else {
        resync(buf, pos + 1)
    }
}

/// `resync` stops at the first header, or less than a header before the end.
pub proof fn lemma_resync(buf: Seq<u8>, pos: int)
    requires
        0 <= pos <= buf.len(),
    ensures
        pos <= resync(buf, pos) <= buf.len(),
        header_at(buf, resync(buf, pos)) || buf.len() - resync(buf, pos) < FRAME_HEADER,
        forall|q: int| pos <= q < resync(buf, pos) ==> !header_at(buf, q),
    decreases buf.len() - pos,
{
    if !(buf.len() - pos < FRAME_HEADER || header_at(buf, pos)) {
        lemma_resync(buf, pos + 1);
    }
}

/// Next complete frame at or after `pos`, skipping garbage between frames.
/// Returns `None` when the buffer holds no complete frame yet; `pos` then
/// stands where the next one may start.
pub fn next_frame<'a>(buf: &'a [u8], pos: &mut usize) -> (frame: Option<Frame<'a>>)
    requires
        *old(pos) <= buf@.len(),
    ensures
        ({
            let p = resync(buf@, *old(pos) as int);
            if frame_at(buf@, p) {
                &&& frame matches Some(f)
                &&& f@ == frame_of(buf@, p)
                &&& *final(pos) == frame_end(buf@, p)
            } else {
                &&& frame is None
                &&& *final(pos) == p
            }
        }),
        *final(pos) <= buf@.len(),
{
    while buf.len() - *pos >= FRAME_HEADER
        invariant
            *pos <= buf@.len(),
            resync(buf@, *old(pos) as int) == resync(buf@, *pos as int),
        decreases buf@.len() - *pos,
    {
        let p: usize = *pos;
        if buf[p] != 0x55 || buf[p + 1] != 0xCC {
            *pos = p + 1;
            continue;
        }
        let length: usize = buf[p + 4] as usize + 256 * (buf[p + 5] as usize);
        if buf.len() - p < FRAME_HEADER + length {
            return None;
        }
        let frame = Frame {
            channel: buf[p + 2],
            payload: slice_subrange(buf, p + FRAME_HEADER, p + FRAME_HEADER + length),
        };
        *pos = p + FRAME_HEADER + length;
        return Some(frame);
    }
    None
}

/// Every complete frame at or after `pos`, in order.
pub open spec fn frames(buf: Seq<u8>, pos: int) -> Seq<FrameView>
    decreases buf.len() - pos,
{
    let p = resync(buf, pos);
    if 0 <= pos <= buf.len() && frame_at(buf, p) {
        proof {
            lemma_resync(buf, pos);
        }
        seq![frame_of(buf, p)] + frames(buf, frame_end(buf, p))
    } else {
        Seq::empty()
    }
}

/// Where the bytes after the last complete frame, garbage skipped, begin.
pub open spec fn consumed(buf: Seq<u8>, pos: int) -> int
    decreases buf.len() - pos,
{
    let p = resync(buf, pos);
    if 0 <= pos <= buf.len() && frame_at(buf, p) {
        proof {
            lemma_resync(buf, pos);
        }
        consumed(buf, frame_end(buf, p))
    } else {
        p
    }
}

/// Scanning never leaves the buffer and never goes back.
pub proof fn lemma_consumed(buf: Seq<u8>, pos: int)
    requires
        0 <= pos <= buf.len(),
    ensures
        pos <= consumed(buf, pos) <= buf.len(),
    decreases buf.len() - pos,
{
    lemma_resync(buf, pos);
    let p = resync(buf, pos);
    if frame_at(buf, p) {
        lemma_consumed(buf, frame_end(buf, p));
    }
}

/// Bytes that arrive later do not change where the scan stops for a header.
proof fn lemma_resync_append(a: Seq<u8>, b: Seq<u8>, pos: int)
    requires
        0 <= pos <= a.len(),
    ensures
        resync(a + b, pos) == resync(a + b, resync(a, pos)),
    decreases a.len() - pos,
{
    if !(a.len() - pos < FRAME_HEADER || header_at(a, pos)) {
        lemma_resync_append(a, b, pos + 1);
    }
}

/// Scanning resumes in a longer buffer exactly where it stopped in a shorter one.
proof fn lemma_frames_append(a: Seq<u8>, b: Seq<u8>, pos: int)
    requires
        0 <= pos <= a.len(),
    ensures
        frames(a + b, pos) == frames(a, pos) + frames(a + b, consumed(a, pos)),
        consumed(a + b, pos) == consumed(a + b, consumed(a, pos)),
    decreases a.len() - pos,
{
    let ab = a + b;
    let p = resync(a, pos);
    lemma_resync(a, pos);
    lemma_resync_append(a, b, pos);
    if frame_at(a, p) {
        assert(frame_of(ab, p).payload =~= frame_of(a, p).payload);
        assert(resync(ab, p) == p);
        lemma_frames_append(a, b, frame_end(a, p));
        assert(frames(ab, pos) =~= frames(a, pos) + frames(ab, consumed(a, pos)));
    } else {
        assert(frames(ab, pos) =~= frames(ab, p));
        assert(frames(a, pos) =~= Seq::<FrameView>::empty());
    }
}

/// Scanning a suffix is scanning the whole from there.
proof fn lemma_resync_skip(s: Seq<u8>, k: int, pos: int)
    requires
        0 <= k <= s.len(),
        0 <= pos <= s.len() - k,
    ensures
        resync(s.skip(k), pos) + k == resync(s, pos + k),
    decreases s.len() - k - pos,
{
    let t = s.skip(k);
    assert(header_at(t, pos) == header_at(s, pos + k));
    if !(t.len() - pos < FRAME_HEADER || header_at(t, pos)) {
        lemma_resync_skip(s, k, pos + 1);
    }
}

proof fn lemma_frames_skip(s: Seq<u8>, k: int, pos: int)
    requires
        0 <= k <= s.len(),
        0 <= pos <= s.len() - k,
    ensures
        frames(s.skip(k), pos) == frames(s, pos + k),
        consumed(s.skip(k), pos) + k == consumed(s, pos + k),
    decreases s.len() - k - pos,
{
    let t = s.skip(k);
    let p = resync(t, pos);
    lemma_resync_skip(s, k, pos);
    lemma_resync(t, pos);
    if frame_at(t, p) {
        assert(frame_of(t, p).payload =~= frame_of(s, p + k).payload);
        lemma_frames_skip(s, k, frame_end(t, p));
    }
}

/// What a stream holds does not depend on how it was cut into reads: the
/// frames of `a` followed by `b` are the frames of `a`, then the frames of
/// what scanning `a` left over followed by `b`; and the same bytes stay over.
pub proof fn law_frames_split(a: Seq<u8>, b: Seq<u8>)
    ensures
        frames(a + b, 0) == frames(a, 0) + frames(a.skip(consumed(a, 0)) + b, 0),
        (a + b).skip(consumed(a + b, 0)) == (a.skip(consumed(a, 0)) + b).skip(
            consumed(a.skip(consumed(a, 0)) + b, 0),
        ),
{
    let k = consumed(a, 0);
    lemma_consumed(a, 0);
    lemma_frames_append(a, b, 0);
    assert((a + b).skip(k) =~= a.skip(k) + b);
    lemma_frames_skip(a + b, k, 0);
    lemma_consumed((a + b).skip(k), 0);
    assert((a + b).skip(consumed(a + b, 0)) =~= (a + b).skip(k).skip(
        consumed((a + b).skip(k), 0),
    ));
}

/// The bytes of a frame on the wire.
pub open spec fn frame_bytes(channel: u8, fill: u8, seq: u16, payload: Seq<u8>) -> Seq<u8> {
    seq![
        0x55u8,
        0xCC,
        channel,
        fill,
        (payload.len() % 256) as u8,
        (payload.len() / 256) as u8,
        (seq % 256) as u8,
        (seq / 256) as u8,
    ] + payload
}

/// A frame on the wire is read as what was sent, with every byte of it, and what
/// follows is read as if it came first.
pub proof fn law_frame_is_read(
    channel: u8,
    fill: u8,
    seq: u16,
    payload: Seq<u8>,
    rest: Seq<u8>,
)
    requires
        payload.len() <= 0xffff,
    ensures
        frames(frame_bytes(channel, fill, seq, payload) + rest, 0) == seq![
            FrameView { channel, payload },
        ] + frames(rest, 0),
        consumed(frame_bytes(channel, fill, seq, payload) + rest, 0) == 8 + payload.len()
            + consumed(rest, 0),
{
    let s = frame_bytes(channel, fill, seq, payload) + rest;
    let n = payload.len() as int;
    assert(s[0] == 0x55 && s[1] == 0xCC && s[2] == channel);
    assert(s[4] == n % 256 && s[5] == n / 256);
    assert(header_at(s, 0));
    assert(resync(s, 0) == 0);
    assert(frame_end(s, 0) == 8 + n);
    assert(s.subrange(8, 8 + n) =~= payload);
    assert(s.skip(8 + n) =~= rest);
    lemma_frames_skip(s, 8 + n, 0);
}

/// A byte that starts no frame is skipped, and no other with it.
pub proof fn law_garbage_is_skipped(s: Seq<u8>)
    requires
        s.len() >= 8,
        !(s[0] == 0x55 && s[1] == 0xCC),
    ensures
        frames(s, 0) == frames(s.skip(1), 0),
        consumed(s, 0) == 1 + consumed(s.skip(1), 0),
{
    lemma_frames_skip(s, 1, 0);
    assert(resync(s, 0) == resync(s, 1));
    lemma_resync(s, 1);
    assert(frames(s, 0) =~= frames(s, 1));
}

/// A frame of which some bytes are missing is waited for: nothing is read, and
/// nothing is skipped.
pub proof fn law_incomplete_frame_waits(s: Seq<u8>)
    requires
        s.len() < 8 || s[0] == 0x55 && s[1] == 0xCC && s.len() < 8 + s[4] + 256 * s[5],
    ensures
        frames(s, 0).len() == 0,
        consumed(s, 0) == 0,
{
    assert(resync(s, 0) == 0);
}

/// Only an interrupted transfer and one that has nothing to give are tried again.
pub proof fn law_what_is_tried_again(e: Errno)
    ensures
        e.spec_is_transient() <==> e is Interrupted || e is Again,
{
}

/// Names with a comma and a space between them.
pub open spec fn comma_list(v: Seq<Seq<char>>) -> Seq<char> {
    joined(v, ", "@)
}

/// A list reads as its parts do, with a comma and a space between them.
pub proof fn law_comma_list(a: Seq<Seq<char>>, b: Seq<Seq<char>>, x: Seq<char>)
    requires
        a.len() > 0,
        b.len() > 0,
    ensures
        comma_list(a + b) == comma_list(a) + seq![',', ' '] + comma_list(b),
        comma_list(seq![x]) == x,
        comma_list(Seq::empty()).len() == 0,
{
    reveal_strlit(", ");
    assert(", "@ =~= seq![',', ' ']);
    law_joined_splits(a, b, x, ", "@);
}

/// "a, b, c" -- for telling the user what a board actually has.
pub fn comma_separated(v: &[String]) -> (s: String)
    ensures
        s@ == comma_list(views(v@)),
        s@ == joined(views(v@), ", "@),
{
    join(v, ", ")
}

/// The low byte of a 16-bit value.
pub open spec fn lo(x: u16) -> u8 {
    (x % 256) as u8
}

/// The high byte of a 16-bit value.
pub open spec fn hi(x: u16) -> u8 {
    (x / 256) as u8
}

/// A 16-bit value on the wire, low byte first.
pub open spec fn le16(x: u16) -> Seq<u8> {
    seq![lo(x), hi(x)]
}

/// The 16-bit value whose bytes on the wire are `a`, then `b`.
pub open spec fn from_le16(a: u8, b: u8) -> u16 {
    (a + 256 * b) as u16
}

/// A 16-bit value survives the wire.
pub proof fn law_le16_round_trip(x: u16)
    ensures
        le16(x).len() == 2,
        from_le16(le16(x)[0], le16(x)[1]) == x,
{
}

/// The outcomes of a system call that some decision depends on.
#[derive(Clone, Copy, Debug, PartialEq, Eq, Structural)]
pub enum Errno {
    /// A signal arrived first (`EINTR`).
    Interrupted,
    /// Nothing to be had right now (`EAGAIN`).
    Again,
    /// The endpoint was shut down (`ESHUTDOWN`).
    Shutdown,
    /// The device is gone (`ENODEV`).
    NoDevice,
    /// It is there already (`EEXIST`).
    Exists,
    /// It is not there (`ENOENT`).
    NotFound,
    /// Anything else, by number.
    Other(i32),
}

impl Errno {
    /// A transfer that ended this way is simply tried again.
    pub open spec fn spec_is_transient(self) -> bool {
        self == Errno::Interrupted || self == Errno::Again
    }

    /// Whether a transfer that ended this way is simply tried again.
    pub fn is_transient(self) -> (again: bool)
        ensures
            again == self.spec_is_transient(),
    {
        match self {
            Errno::Interrupted => true,
            Errno::Again => true,
            _ => false,
        }
    }
}

/// What one `write` call did.
#[derive(Clone, Copy, Debug, PartialEq, Eq, Structural)]
pub enum WriteResult {
    Wrote(usize),
    Failed(Errno),
}

/// What to do next about a buffer that is being written out.
#[derive(Clone, Copy, Debug, PartialEq, Eq, Structural)]
pub enum WriteStep {
    /// Write the bytes from this offset to the end of the buffer.
    WriteFrom(usize),
    /// Every byte has been written.
    Complete,
    /// The output is broken.
    Broken(Errno),
}

/// How one `write` call is accounted for, with `sent` bytes of `total` written
/// before it: how many are written after it, and what to do next.
pub open spec fn write_step(sent: nat, total: nat, result: WriteResult) -> (nat, WriteStep) {
    let now = match result {
        WriteResult::Wrote(n) => sent + n as nat,
        WriteResult::Failed(_) => sent,
    };
    let step = match result {
        WriteResult::Failed(e) if e != Errno::Interrupted => WriteStep::Broken(e),
        _ => if now == total {
            WriteStep::Complete
        } else {
            WriteStep::WriteFrom(now as usize)
        },
    };
    (now, step)
}

/// Two writes that go through do what one of both lengths does; an interrupted
/// one is as if it had not been made; nothing is complete before every byte is
/// written; and any other failure ends it.
pub proof fn law_writes_add_up(sent: nat, total: nat, a: usize, b: usize, e: Errno)
    requires
        sent + a + b <= total <= usize::MAX,
    ensures
        ({
            let one = write_step(sent, total, WriteResult::Wrote(a));
            let two = write_step(one.0, total, WriteResult::Wrote(b));
            &&& two == write_step(sent, total, WriteResult::Wrote((a + b) as usize))
            &&& two.0 == sent + a + b
            &&& two.1 is Complete <==> sent + a + b == total
            &&& two.1 is Complete || two.1 == WriteStep::WriteFrom((sent + a + b) as usize)
            &&& write_step(sent, total, WriteResult::Failed(Errno::Interrupted)) == write_step(
                sent,
                total,
                WriteResult::Wrote(0),
            )
            &&& e != Errno::Interrupted ==> write_step(sent, total, WriteResult::Failed(e)) == (
                sent,
                WriteStep::Broken(e),
            )
        }),
{
}

/// A buffer on its way out, in as many writes as it takes: short writes and
/// interrupted ones are retried, any other failure ends it.
pub struct WriteAll {
    sent: usize,
    len: usize,
}

impl WriteAll {
    /// How many bytes have been written.
    pub closed spec fn sent(self) -> nat {
        self.sent as nat
    }

    /// How many bytes there are in all.
    pub closed spec fn total(self) -> nat {
        self.len as nat
    }

    pub open spec fn wf(self) -> bool {
        self.sent() <= self.total() <= usize::MAX
    }

    /// What is left to do when nothing went wrong.
    pub open spec fn spec_next(self) -> WriteStep {
        if self.sent() == self.total() {
            WriteStep::Complete
        } else {
            WriteStep::WriteFrom(self.sent() as usize)
        }
    }

    /// A buffer of `len` bytes, none of them written.
    pub fn new(len: usize) -> (w: WriteAll)
        ensures
            w.wf(),
            w.sent() == 0,
            w.total() == len,
    {
        WriteAll { sent: 0, len }
    }

    /// What is left to do.
    pub fn next(&self) -> (step: WriteStep)
        requires
            self.wf(),
        ensures
            step == self.spec_next(),
    {
        if self.sent == self.len {
            WriteStep::Complete
        } else {
            WriteStep::WriteFrom(self.sent)
        }
    }

    /// Account for one `write` call and say what to do next. A call reports at
    /// most the bytes it was given.
    pub fn report(&mut self, result: WriteResult) -> (step: WriteStep)
        requires
            old(self).wf(),
            result matches WriteResult::Wrote(n) ==> n <= old(self).total() - old(self).sent(),
        ensures
            final(self).wf(),
            final(self).total() == old(self).total(),
            (final(self).sent(), step) == write_step(old(self).sent(), old(self).total(), result),
            match result {
                WriteResult::Wrote(n) => {
                    &&& final(self).sent() == old(self).sent() + n
                    &&& step == final(self).spec_next()
                },
                WriteResult::Failed(e) => {
                    &&& final(self).sent() == old(self).sent()
                    &&& step == if e == Errno::Interrupted {
                        final(self).spec_next()
                    } else {
                        WriteStep::Broken(e)
                    }
                },
            },
    {
        match result {
            WriteResult::Wrote(n) => {
                self.sent = self.sent + n;
                self.next()
            },
            WriteResult::Failed(Errno::Interrupted) => self.next(),
            WriteResult::Failed(e) => WriteStep::Broken(e),
        }
    }
}

} // verus!
