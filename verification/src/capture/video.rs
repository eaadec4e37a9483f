//! The H.264 elementary stream, unwrapped from the goggles' frames.
use vstd::prelude::*;
use vstd::slice::slice_subrange;
use vstd::slice::slice_to_vec;

use crate::common::{consumed, frame_bytes, frames, lemma_resync, FrameView};
use crate::common::{law_frame_is_read, law_frames_split, law_incomplete_frame_waits};
use crate::common::{next_frame, Frame};

verus! {

/// The channel that carries the video.
pub const VIDEO_CHANNEL: u8 = 0x4A;

/// A start code followed by an SPS (NAL type 7) stands at `i`.
pub open spec fn sps_at(p: Seq<u8>, i: int) -> bool {
    &&& 0 <= i
    &&& i + 4 < p.len()
    &&& p[i] == 0
    &&& p[i + 1] == 0
    &&& p[i + 2] == 0
    &&& p[i + 3] == 1
    &&& p[i + 4] & 0x1F == 7
}

/// The first SPS at or after `i`.
pub open spec fn sps_from(p: Seq<u8>, i: int) -> Option<int>
    decreases p.len() - i,
{
    if i + 4 >= p.len() {
        None
    } else if sps_at(p, i) {
        Some(i)
    } else {
        sps_from(p, i + 1)
    }
}

/// The offset of the first SPS of `p`, or `None` if there is none.
pub open spec fn first_sps(p: Seq<u8>) -> Option<int> {
    sps_from(p, 0)
}

/// `sps_from` finds an SPS if there is one, and no other comes before it.
pub proof fn lemma_sps_from(p: Seq<u8>, i: int)
    requires
        0 <= i,
    ensures
        match sps_from(p, i) {
            Some(k) => i <= k && sps_at(p, k) && forall|j: int| i <= j < k ==> !sps_at(p, j),
            None => forall|j: int| i <= j ==> !sps_at(p, j),
        },
    decreases p.len() - i,
{
    if i + 4 < p.len() && !sps_at(p, i) {
        lemma_sps_from(p, i + 1);
    }
}

/// Offset of the first H.264 SPS (NAL type 7) at a start code, or `None`.
/// The stream starts here so a downstream decoder gets a clean first buffer.
pub fn find_sps(p: &[u8]) -> (found: Option<usize>)
    ensures
        match found {
            Some(i) => first_sps(p@) == Some(i as int) && i + 4 < p@.len(),
            None => first_sps(p@) is None,
        },
{
    if p.len() < 5 {
        return None;
    }
    let mut i: usize = 0;
    while i < p.len() - 4
        invariant
            5 <= p@.len(),
            i <= p@.len() - 4,
            first_sps(p@) == sps_from(p@, i as int),
        decreases p@.len() - i,
    {
        if p[i] == 0 && p[i + 1] == 0 && p[i + 2] == 0 && p[i + 3] == 1 && (p[i + 4] & 0x1F) == 7 {
            return Some(i);
        }
        i = i + 1;
    }
    None
}

/// How far the video has come: whether the first SPS was seen, and how many
/// bytes were emitted since (modulo the word size).
pub struct VideoProgress {
    pub started: bool,
    pub total: usize,
}

/// A piece of the elementary stream to write out.
pub struct VideoChunk {
    pub payload: Vec<u8>,
    /// The stream starts with this chunk.
    pub starts: bool,
    /// Another mebibyte is through with this chunk; so many KiB in all.
    pub wrote_kib: Option<usize>,
}

/// What a chunk says.
#[verifier::ext_equal]
pub struct VideoChunkView {
    pub payload: Seq<u8>,
    pub starts: bool,
    pub wrote_kib: Option<usize>,
}

impl View for VideoChunk {
    type V = VideoChunkView;

    open spec fn view(&self) -> VideoChunkView {
        VideoChunkView {
            payload: self.payload@,
            starts: self.starts,
            wrote_kib: self.wrote_kib,
        }
    }
}

/// The views of some chunks.
pub open spec fn chunk_views(v: Seq<VideoChunk>) -> Seq<VideoChunkView> {
    v.map_values(|c: VideoChunk| c@)
}

/// `n` more bytes, modulo the word size.
pub open spec fn add_bytes(total: usize, n: nat) -> usize {
    if total + n > usize::MAX {
        (total + n - usize::MAX - 1) as usize
    } else {
        (total + n) as usize
    }
}

/// One mebibyte.
pub const MEBIBYTE: usize = 1_048_576;

/// The chunk that carries `payload` on to the sink, and the progress after it.
pub open spec fn emit(st: VideoProgress, payload: Seq<u8>) -> (VideoProgress, VideoChunkView) {
    let total = add_bytes(st.total, payload.len());
    let wrote_kib = if total % MEBIBYTE < payload.len() {
        Some((total / 1024) as usize)
    } else {
        None
    };
    (
        VideoProgress { started: true, total },
        VideoChunkView { payload, starts: !st.started, wrote_kib },
    )
}

/// What a frame brings: nothing unless it carries video, and before the first
/// SPS only the bytes from there on.
pub open spec fn video_step(st: VideoProgress, f: FrameView) -> (
    VideoProgress,
    Option<VideoChunkView>,
) {
    if f.channel != VIDEO_CHANNEL || f.payload.len() == 0 {
        (st, None)
    } else if st.started {
        let (next, chunk) = emit(st, f.payload);
        (next, Some(chunk))
    } else {
        match first_sps(f.payload) {
            None => (st, None),
            Some(sps) => {
                let (next, chunk) = emit(st, f.payload.skip(sps));
                (next, Some(chunk))
            },
        }
    }
}

/// What a run of frames brings.
pub open spec fn video_run(st: VideoProgress, fs: Seq<FrameView>) -> (
    VideoProgress,
    Seq<VideoChunkView>,
)
    decreases fs.len(),
{
    if fs.len() == 0 {
        (st, Seq::empty())
    } else {
        let (mid, chunk) = video_step(st, fs[0]);
        let (end, rest) = video_run(mid, fs.skip(1));
        match chunk {
            None => (end, rest),
            Some(c) => (end, seq![c] + rest),
        }
    }
}

/// What one read brings, with the bytes that were left over before it and the
/// progress so far: what is left over after it, the progress, and the chunks.
pub open spec fn stream_step(pending: Seq<u8>, st: VideoProgress, read: Seq<u8>) -> (
    Seq<u8>,
    VideoProgress,
    Seq<VideoChunkView>,
) {
    let all = pending + read;
    let (end, out) = video_run(st, frames(all, 0));
    (all.skip(consumed(all, 0)), end, out)
}

/// Unwraps the goggles' frames and passes on the video channel, from the first
/// SPS.
pub struct VideoStream {
    buf: Vec<u8>,
    total: usize,
    started: bool,
}

impl VideoStream {
    /// The bytes of the frame that is not complete yet.
    pub closed spec fn pending(self) -> Seq<u8> {
        self.buf@
    }

    /// How far the video has come.
    pub closed spec fn progress(self) -> VideoProgress {
        VideoProgress { started: self.started, total: self.total }
    }

    /// Nothing read, nothing emitted.
    pub fn new() -> (s: VideoStream)
        ensures
            s.pending() == Seq::<u8>::empty(),
            s.progress() == (VideoProgress { started: false, total: 0 }),
    {
        VideoStream { buf: Vec::new(), total: 0, started: false }
    }

    /// Pass one frame payload on, from `from`.
    fn emit_from(&mut self, payload: &[u8], from: usize) -> (chunk: VideoChunk)
        requires
            from <= payload@.len(),
        ensures
            final(self).pending() == old(self).pending(),
            (final(self).progress(), chunk@) == emit(
                old(self).progress(),
                payload@.skip(from as int),
            ),
    {
        let bytes: Vec<u8> = slice_to_vec(slice_subrange(payload, from, payload.len()));
        let n: usize = bytes.len();
        let total: usize = self.total.wrapping_add(n);
        let starts: bool = !self.started;
        self.total = total;
        self.started = true;
        let wrote_kib: Option<usize> = if total % MEBIBYTE < n {
            Some(total / 1024)
        } else {
            None
        };
        assert(bytes@ =~= payload@.skip(from as int));
        VideoChunk { payload: bytes, starts, wrote_kib }
    }

    /// Take in what one read brought and say what to write out, in order.
    pub fn feed(&mut self, chunk: &[u8]) -> (out: Vec<VideoChunk>)
        ensures
            (final(self).pending(), final(self).progress(), chunk_views(out@)) == stream_step(
                old(self).pending(),
                old(self).progress(),
                chunk@,
            ),
            ({
                let all = old(self).pending() + chunk@;
                &&& final(self).pending() == all.skip(consumed(all, 0))
                &&& (final(self).progress(), chunk_views(out@)) == video_run(
                    old(self).progress(),
                    frames(all, 0),
                )
            }),
    {
        let mut buf: Vec<u8> = Vec::new();
        buf.append(&mut self.buf);
        buf.extend_from_slice(chunk);
        let ghost all = old(self).pending() + chunk@;
        assert(buf@ =~= all);
        let mut out: Vec<VideoChunk> = Vec::new();
        let mut pos: usize = 0;
        let ghost whole = video_run(old(self).progress(), frames(all, 0));
        assert(chunk_views(out@) =~= Seq::empty());
        assert(whole.1 =~= chunk_views(out@) + whole.1);
        loop
            invariant_except_break
                pos <= buf@.len(),
                buf@ == all,
                consumed(all, 0) == consumed(all, pos as int),
                whole.0 == video_run(self.progress(), frames(all, pos as int)).0,
                whole.1 == chunk_views(out@) + video_run(
                    self.progress(),
                    frames(all, pos as int),
                ).1,
            ensures
                pos <= buf@.len(),
                buf@ == all,
                pos == consumed(all, 0),
                whole == (self.progress(), chunk_views(out@)),
            decreases buf@.len() - pos,
        {
            let ghost from = pos as int;
            let ghost before = out@;
            let ghost st = self.progress();
            let found: Option<Frame> = next_frame(buf.as_slice(), &mut pos);
            proof {
                lemma_resync(all, from);
            }
            match found {
                None => {
                    assert(whole.1 =~= chunk_views(out@));
                    break;
                },
                Some(frame) => {
                    let ghost f = frame@;
                    proof {
                        assert(frames(all, from)[0] == f);
                        assert(frames(all, from).skip(1) =~= frames(all, pos as int));
                    }
                    if frame.channel != VIDEO_CHANNEL || frame.payload.len() == 0 {
                        continue;
                    }
                    let start: Option<usize> = if self.started {
                        assert(f.payload.skip(0) =~= f.payload);
                        Some(0)
                    } else {
                        find_sps(frame.payload)
                    };
                    if let Some(start) = start {
                        let piece: VideoChunk = self.emit_from(frame.payload, start);
                        out.push(piece);
                        proof {
                            let rest = video_run(self.progress(), frames(all, pos as int)).1;
                            assert(chunk_views(out@) =~= chunk_views(before).push(piece@));
                            assert(chunk_views(before) + (seq![piece@] + rest) =~= chunk_views(out@)
                                + rest);
                        }
                    }
                },
            }
        }
        self.buf = buf.split_off(pos);
        out
    }
}

/// A run of frames is a run of its first part, then one of its second.
proof fn lemma_video_run_append(st: VideoProgress, a: Seq<FrameView>, b: Seq<FrameView>)
    ensures
        ({
            let (mid, first) = video_run(st, a);
            let (end, second) = video_run(mid, b);
            video_run(st, a + b) == (end, first + second)
        }),
    decreases a.len(),
{
    if a.len() == 0 {
        assert(a + b =~= b);
        assert(Seq::<VideoChunkView>::empty() + video_run(st, b).1 =~= video_run(st, b).1);
    } else {
        let (mid, chunk) = video_step(st, a[0]);
        assert((a + b).skip(1) =~= a.skip(1) + b);
        lemma_video_run_append(mid, a.skip(1), b);
        let (m, first) = video_run(mid, a.skip(1));
        let (_, second) = video_run(m, b);
        if let Some(c) = chunk {
            assert(seq![c] + (first + second) =~= (seq![c] + first) + second);
        }
    }
}

/// The video does not depend on how the stream was cut into reads: two reads
/// bring, together, what one read of the same bytes brings, and leave the
/// stream in the same state.
pub proof fn law_video_split(st: VideoProgress, pending: Seq<u8>, a: Seq<u8>, b: Seq<u8>)
    ensures
        ({
            let one = pending + a;
            let left = one.skip(consumed(one, 0));
            let two = left + b;
            let both = pending + (a + b);
            let (mid, first) = video_run(st, frames(one, 0));
            let (end, second) = video_run(mid, frames(two, 0));
            &&& video_run(st, frames(both, 0)) == (end, first + second)
            &&& both.skip(consumed(both, 0)) == two.skip(consumed(two, 0))
        }),
{
    let one = pending + a;
    let left = one.skip(consumed(one, 0));
    assert(pending + (a + b) =~= one + b);
    law_frames_split(one, b);
    lemma_video_run_append(st, frames(one, 0), frames(left + b, 0));
}

/// The stream starts once, cleanly: the first chunk ever emitted begins with
/// an SPS, and no later chunk claims to start the stream.
pub proof fn law_video_starts_at_sps(st: VideoProgress, fs: Seq<FrameView>)
    ensures
        ({
            let out = video_run(st, fs).1;
            &&& !st.started && out.len() > 0 ==> out[0].starts && sps_at(out[0].payload, 0)
            &&& forall|i: int|
                0 <= i < out.len() && (i > 0 || st.started) ==> !(#[trigger] out[i]).starts
        }),
    decreases fs.len(),
{
    if fs.len() > 0 {
        let (mid, chunk) = video_step(st, fs[0]);
        law_video_starts_at_sps(mid, fs.skip(1));
        let rest = video_run(mid, fs.skip(1)).1;
        if let Some(c) = chunk {
            let out = video_run(st, fs).1;
            assert(out == seq![c] + rest);
            if !st.started {
                lemma_sps_from(fs[0].payload, 0);
            }
            assert forall|i: int| 0 <= i < out.len() && (i > 0 || st.started) implies !(
            #[trigger] out[i]).starts by {
                if i > 0 {
                    assert(out[i] == rest[i - 1]);
                }
            }
        }
    }
}

/// The start code and NAL type of an SPS stand at `i`: three zero bytes and a
/// one, and a byte whose low five bits are 7.
pub open spec fn sps_starts(p: Seq<u8>, i: int) -> bool {
    0 <= i && i + 5 <= p.len() && p.subrange(i, i + 4) == seq![0u8, 0, 0, 1] && p[i + 4] % 32 == 7
}

proof fn lemma_sps_starts(p: Seq<u8>, i: int)
    ensures
        sps_starts(p, i) == sps_at(p, i),
{
    if 0 <= i && i + 5 <= p.len() {
        let b = p[i + 4];
        let s = p.subrange(i, i + 4);
        assert(b & 0x1F == b % 32) by (bit_vector);
        assert(s[0] == p[i] && s[1] == p[i + 1] && s[2] == p[i + 2] && s[3] == p[i + 3]);
        if sps_at(p, i) {
            assert(s =~= seq![0u8, 0, 0, 1]);
        }
    }
}

/// What is found is the first SPS; nothing is found only where there is none.
pub proof fn law_first_sps_is_found(p: Seq<u8>)
    ensures
        match first_sps(p) {
            Some(i) => sps_starts(p, i) && forall|j: int| j < i ==> !#[trigger] sps_starts(p, j),
            None => forall|j: int| !#[trigger] sps_starts(p, j),
        },
{
    lemma_sps_from(p, 0);
    assert forall|j: int| #[trigger] sps_starts(p, j) == sps_at(p, j) by {
        lemma_sps_starts(p, j);
    }
}

/// The payloads of the frames on the video channel, one after the other.
pub open spec fn video_payloads(fs: Seq<FrameView>) -> Seq<u8>
    decreases fs.len(),
{
    if fs.len() == 0 {
        Seq::empty()
    } else {
        (if fs[0].channel == 0x4A {
            fs[0].payload
        } else {
            Seq::empty()
        }) + video_payloads(fs.skip(1))
    }
}

/// The bytes of some chunks, one after the other.
pub open spec fn chunk_bytes(cs: Seq<VideoChunkView>) -> Seq<u8> {
    cs.map_values(|c: VideoChunkView| c.payload).flatten()
}

proof fn lemma_chunk_bytes(c: VideoChunkView, rest: Seq<VideoChunkView>)
    ensures
        chunk_bytes(seq![c] + rest) == c.payload + chunk_bytes(rest),
{
    let all = (seq![c] + rest).map_values(|c: VideoChunkView| c.payload);
    assert(all.drop_first() =~= rest.map_values(|c: VideoChunkView| c.payload));
    assert(all.first() == c.payload);
}

/// Once the stream has started, the video passes through whole: what comes out
/// is every payload on the video channel, in order, nothing dropped and nothing
/// added.
pub proof fn law_running_stream_passes_whole(st: VideoProgress, fs: Seq<FrameView>)
    requires
        st.started,
    ensures
        chunk_bytes(video_run(st, fs).1) == video_payloads(fs),
        video_run(st, fs).0.started,
    decreases fs.len(),
{
    if fs.len() > 0 {
        let (mid, chunk) = video_step(st, fs[0]);
        law_running_stream_passes_whole(mid, fs.skip(1));
        let rest = video_run(mid, fs.skip(1)).1;
        match chunk {
            Some(c) => {
                lemma_chunk_bytes(c, rest);
                assert(c.payload == fs[0].payload);
            },
            None => {
                assert(video_payloads(fs) =~= video_payloads(fs.skip(1)));
            },
        }
    }
}

/// Some frame on the video channel holds an SPS.
pub open spec fn brings_sps(f: FrameView) -> bool {
    f.channel == 0x4A && exists|i: int| #[trigger] sps_starts(f.payload, i)
}

/// Before an SPS has come, nothing comes out.
pub proof fn law_nothing_before_the_first_sps(st: VideoProgress, fs: Seq<FrameView>)
    requires
        !st.started,
        forall|j: int| 0 <= j < fs.len() ==> !brings_sps(#[trigger] fs[j]),
    ensures
        video_run(st, fs) == (st, Seq::<VideoChunkView>::empty()),
    decreases fs.len(),
{
    if fs.len() > 0 {
        assert(!brings_sps(fs[0]));
        law_first_sps_is_found(fs[0].payload);
        assert(video_step(st, fs[0]) == (st, None::<VideoChunkView>));
        assert forall|j: int| 0 <= j < fs.skip(1).len() implies !brings_sps(
            #[trigger] fs.skip(1)[j],
        ) by {
            assert(fs.skip(1)[j] == fs[j + 1]);
        }
        law_nothing_before_the_first_sps(st, fs.skip(1));
    }
}

/// The stream starts with the first SPS on the video channel: what comes out is
/// the frame that brings it, less only what stands before the SPS, and every
/// payload on the video channel after that.
pub proof fn law_stream_from_the_first_sps(st: VideoProgress, fs: Seq<FrameView>, k: int, i: int)
    requires
        !st.started,
        0 <= k < fs.len(),
        forall|j: int| 0 <= j < k ==> !brings_sps(#[trigger] fs[j]),
        fs[k].channel == 0x4A,
        sps_starts(fs[k].payload, i),
        forall|j: int| j < i ==> !#[trigger] sps_starts(fs[k].payload, j),
    ensures
        chunk_bytes(video_run(st, fs).1) == fs[k].payload.skip(i) + video_payloads(
            fs.skip(k + 1),
        ),
        video_run(st, fs).0.started,
{
    let before = fs.take(k);
    let rest = fs.skip(k);
    assert forall|j: int| 0 <= j < before.len() implies !brings_sps(#[trigger] before[j]) by {
        assert(before[j] == fs[j]);
    }
    law_nothing_before_the_first_sps(st, before);
    lemma_video_run_append(st, before, rest);
    assert(before + rest =~= fs);
    let out = video_run(st, rest).1;
    assert(Seq::<VideoChunkView>::empty() + out =~= out);
    law_first_sps_is_found(fs[k].payload);
    let found = first_sps(fs[k].payload)->0;
    if found < i {
        assert(!sps_starts(fs[k].payload, found));
    }
    if i < found {
        assert(!sps_starts(fs[k].payload, i));
    }
    assert(rest[0] == fs[k]);
    assert(rest.skip(1) =~= fs.skip(k + 1));
    let (mid, chunk) = video_step(st, rest[0]);
    law_running_stream_passes_whole(mid, rest.skip(1));
    lemma_chunk_bytes(chunk->0, video_run(mid, rest.skip(1)).1);
}

/// Progress is reported once for every mebibyte that is through, with the
/// kibibytes so far.
pub proof fn law_every_mebibyte_is_reported(st: VideoProgress, payload: Seq<u8>)
    requires
        0 < payload.len() <= 0x10_0000,
        st.total + payload.len() <= usize::MAX,
    ensures
        ({
            let (next, chunk) = emit(st, payload);
            let now = st.total + payload.len();
            &&& chunk.payload == payload
            &&& next.total == now
            &&& now / 0x10_0000 > st.total as int / 0x10_0000 ==> chunk.wrote_kib == Some(
                (now / 1024) as usize,
            )
            &&& now / 0x10_0000 == st.total as int / 0x10_0000 ==> chunk.wrote_kib is None
        }),
{
}

/// Two reads bring what one read of the same bytes brings.
pub proof fn law_reads_add_up(pending: Seq<u8>, st: VideoProgress, a: Seq<u8>, b: Seq<u8>)
    ensures
        ({
            let one = stream_step(pending, st, a);
            let two = stream_step(one.0, one.1, b);
            stream_step(pending, st, a + b) == (two.0, two.1, one.2 + two.2)
        }),
{
    law_video_split(st, pending, a, b);
}

/// A whole video frame of a running stream comes out as the bytes it carries,
/// and leaves nothing over; so does an empty one, or one of another channel, but
/// nothing comes out.
pub proof fn law_frame_comes_through(
    st: VideoProgress,
    channel: u8,
    fill: u8,
    seq: u16,
    payload: Seq<u8>,
)
    requires
        st.started,
        payload.len() <= 0xffff,
    ensures
        ({
            let (left, end, out) = stream_step(
                Seq::empty(),
                st,
                frame_bytes(channel, fill, seq, payload),
            );
            &&& left.len() == 0
            &&& channel == 0x4a && payload.len() > 0 ==> out.len() == 1 && out[0].payload == payload
                && !out[0].starts
            &&& channel != 0x4a || payload.len() == 0 ==> out.len() == 0 && end == st
        }),
{
    let none = Seq::<u8>::empty();
    let bytes = frame_bytes(channel, fill, seq, payload);
    assert(none + bytes =~= bytes + none);
    law_frame_is_read(channel, fill, seq, payload, none);
    law_incomplete_frame_waits(none);
    let f = FrameView { channel, payload };
    assert(frames(none, 0) =~= Seq::empty());
    assert(frames(bytes + none, 0) =~= seq![f]);
    assert(seq![f].skip(1) =~= Seq::empty());
    reveal_with_fuel(video_run, 2);
}

/// The bytes that are through are counted modulo the word size; each chunk
/// carries just what it was given, and the first says that it is.
pub proof fn law_bytes_are_counted(st: VideoProgress, payload: Seq<u8>)
    requires
        payload.len() <= usize::MAX,
    ensures
        ({
            let (next, chunk) = emit(st, payload);
            let sum = st.total + payload.len();
            &&& sum <= usize::MAX ==> next.total == sum
            &&& sum > usize::MAX ==> next.total + usize::MAX + 1 == sum
            &&& next.started && chunk.starts == !st.started
            &&& chunk.payload == payload
            &&& chunk.wrote_kib matches Some(k) ==> k == next.total as int / 1024
        }),
{
}

} // verus!
