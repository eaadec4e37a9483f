//! The live link: control packets are acknowledged, video fragments become
//! complete Annex-B units, and two clocks watch whether anything still comes.
use vstd::prelude::*;

use crate::common::Errno;
use crate::goggles_net::handshake::{ack_bytes, packet_type_spec};
use crate::goggles_net::handshake::{build_control_ack, packet_type};
use crate::goggles_net::handshake::{ACK_LEN, MILLI, TYPE_CONTROL, TYPE_VIDEO};
use crate::goggles_net::video::{fragment_of, Assembly};
use crate::goggles_net::video::{parse_fragment, Assembler, HEADER_LEN};

verus! {

/// How often the receive loop wakes up even with nothing on the wire, in
/// milliseconds.
pub const POLL_MS: u64 = 500;

/// Video quiet for so many milliseconds, but control ACKs still flowing: almost
/// always "no signal from the air unit yet", not a dead link.
pub const VIDEO_QUIET_MS: u64 = 2_500;

/// Nothing at all -- not even a control packet -- for so many milliseconds
/// means the wired session itself is gone.
pub const SESSION_QUIET_MS: u64 = 10_000;

/// The time from `earlier` to `later`, in nanoseconds; none if it is the other
/// way round.
pub open spec fn elapsed(later: u64, earlier: u64) -> int {
    if later >= earlier {
        later - earlier
    } else {
        0
    }
}

/// One more, up to the largest number there is.
pub open spec fn one_more(n: u64) -> u64 {
    if n < u64::MAX {
        (n + 1) as u64
    } else {
        n
    }
}

/// A complete video unit.
pub struct VideoUnit {
    pub bytes: Vec<u8>,
    /// Its number, from 1.
    pub number: u64,
    /// The video was reported stalled before it.
    pub resumed: bool,
}

/// What a complete video unit says.
#[verifier::ext_equal]
pub struct VideoUnitView {
    pub bytes: Seq<u8>,
    pub number: u64,
    pub resumed: bool,
}

impl View for VideoUnit {
    type V = VideoUnitView;

    open spec fn view(&self) -> VideoUnitView {
        VideoUnitView { bytes: self.bytes@, number: self.number, resumed: self.resumed }
    }
}

/// What a datagram asks for.
pub enum Incoming {
    /// A control packet: send this ACK, the `number`th.
    Control { ack: [u8; ACK_LEN], number: u64 },
    /// A video packet; `first` is the first of the session.
    Video { first: bool, unit: Option<VideoUnit> },
    /// Another packet of the session, of this type.
    Other(u8),
    /// Not a packet of the session.
    Foreign,
}

/// What a datagram asks for, as plain values.
#[verifier::ext_equal]
pub enum IncomingView {
    Control { ack: Seq<u8>, number: u64 },
    Video { first: bool, unit: Option<VideoUnitView> },
    Other(u8),
    Foreign,
}

impl View for Incoming {
    type V = IncomingView;

    open spec fn view(&self) -> IncomingView {
        match self {
            Incoming::Control { ack, number } => IncomingView::Control {
                ack: ack@,
                number: *number,
            },
            Incoming::Video { first, unit } => IncomingView::Video {
                first: *first,
                unit: match unit {
                    Some(u) => Some(u@),
                    None => None,
                },
            },
            Incoming::Other(kind) => IncomingView::Other(*kind),
            Incoming::Foreign => IncomingView::Foreign,
        }
    }
}

/// How the link is doing.
#[derive(Clone, Copy, Debug, PartialEq, Eq, Structural)]
pub enum Liveness {
    /// Nothing to report.
    Fine,
    /// The video has gone quiet while control is alive.
    VideoQuiet,
    /// Nothing has come for so many milliseconds: the link is dead.
    Dead(u64),
}

/// How a run on the link ends.
#[derive(Clone, Copy, Debug, PartialEq, Eq, Structural)]
pub enum LinkEnd {
    /// The session was only to be opened, and it was.
    Probed,
    /// A stop signal arrived.
    Stopped,
    /// The video could not be written.
    SinkFailed(Errno),
    /// Nothing has come for so many milliseconds.
    Dead(u64),
}

impl LinkEnd {
    /// The exit code.
    pub open spec fn spec_exit_code(self) -> i32 {
        match self {
            LinkEnd::Probed => 0,
            LinkEnd::Stopped => 0,
            LinkEnd::SinkFailed(e) => 1,
            LinkEnd::Dead(ms) => 1,
        }
    }

    /// The exit code: a probe and a stop succeed, anything else fails.
    pub fn exit_code(self) -> (code: i32)
        ensures
            code == self.spec_exit_code(),
    {
        match self {
            LinkEnd::Probed => 0,
            LinkEnd::Stopped => 0,
            LinkEnd::SinkFailed(_) => 1,
            LinkEnd::Dead(_) => 1,
        }
    }
}

/// How the run ends once the session is open, if it does.
pub open spec fn end_on_open(probe_only: bool) -> Option<LinkEnd> {
    if probe_only {
        Some(LinkEnd::Probed)
    } else {
        None
    }
}

/// How the run ends once a unit was written or could not be, if it does.
pub open spec fn end_on_write(result: Result<(), Errno>) -> Option<LinkEnd> {
    match result {
        Ok(_) => None,
        Err(e) => Some(LinkEnd::SinkFailed(e)),
    }
}

/// How the run ends before the next datagram is waited for, if it does.
pub open spec fn end_on_check(stop: bool, liveness: Liveness) -> Option<LinkEnd> {
    match liveness {
        Liveness::Dead(ms) => Some(LinkEnd::Dead(ms)),
        _ => if stop {
            Some(LinkEnd::Stopped)
        } else {
            None
        },
    }
}

/// Whether the run ends once the session is open: a probe does, before
/// anything is received or written. Otherwise receiving is next.
pub fn after_open(probe_only: bool) -> (end: Option<LinkEnd>)
    ensures
        end == end_on_open(probe_only),
        end == if probe_only {
            Some(LinkEnd::Probed)
        } else {
            None
        },
{
    if probe_only {
        Some(LinkEnd::Probed)
    } else {
        None
    }
}

/// Whether the run ends once a unit was written, or could not be: a failed
/// write ends it, with its error.
pub fn after_write(result: Result<(), Errno>) -> (end: Option<LinkEnd>)
    ensures
        end == end_on_write(result),
        end == match result {
            Ok(_) => None,
            Err(e) => Some(LinkEnd::SinkFailed(e)),
        },
{
    match result {
        Ok(_) => None,
        Err(e) => Some(LinkEnd::SinkFailed(e)),
    }
}

/// Whether the run ends before the next datagram is waited for: a stop signal
/// ends it, and so does a dead link.
pub fn after_check(stop: bool, liveness: Liveness) -> (end: Option<LinkEnd>)
    ensures
        end == end_on_check(stop, liveness),
        end == match liveness {
            Liveness::Dead(ms) => Some(LinkEnd::Dead(ms)),
            _ => if stop {
                Some(LinkEnd::Stopped)
            } else {
                None
            },
        },
{
    match liveness {
        Liveness::Dead(ms) => Some(LinkEnd::Dead(ms)),
        _ => {
            if stop {
                Some(LinkEnd::Stopped)
            } else {
                None
            }
        },
    }
}

/// Everything the link remembers.
#[verifier::ext_equal]
pub struct LinkState {
    pub session: u16,
    pub assembly: Assembly,
    /// When the first video packet came.
    pub first_video: Option<u64>,
    pub control_acks: u64,
    pub units_written: u64,
    pub last_any: u64,
    pub last_control: Option<u64>,
    /// When the last unit was completed.
    pub last_video: Option<u64>,
    pub video_stalled: bool,
}

impl LinkState {
    /// A session that has just been opened.
    pub open spec fn start(session: u16, now: u64) -> LinkState {
        LinkState {
            session,
            assembly: Assembly::start(),
            first_video: None,
            control_acks: 0,
            units_written: 0,
            last_any: now,
            last_control: None,
            last_video: None,
            video_stalled: false,
        }
    }

    /// Whether a datagram is a control packet that is acknowledged.
    pub open spec fn is_control(self, data: Seq<u8>) -> bool {
        packet_type_spec(data, self.session) == Some(TYPE_CONTROL) && data.len() >= ACK_LEN
    }

    /// A video packet that came at time `at`.
    pub open spec fn got_video(self, at: u64, data: Seq<u8>) -> (LinkState, IncomingView) {
        let first = self.first_video is None;
        let seen = LinkState {
            first_video: if first {
                Some(at)
            } else {
                self.first_video
            },
            last_any: at,
            ..self
        };
        if data.len() < HEADER_LEN {
            (seen, IncomingView::Video { first, unit: None })
        } else {
            let (assembly, out) = self.assembly.fed(fragment_of(data));
            match out {
                None => (
                    LinkState { assembly, ..seen },
                    IncomingView::Video { first, unit: None },
                ),
                Some(bytes) => {
                    let number = one_more(self.units_written);
                    (
                        LinkState {
                            assembly,
                            last_video: Some(at),
                            video_stalled: false,
                            units_written: number,
                            ..seen
                        },
                        IncomingView::Video {
                            first,
                            unit: Some(
                                VideoUnitView { bytes, number, resumed: self.video_stalled },
                            ),
                        },
                    )
                },
            }
        }
    }

    /// A datagram that came at time `at`.
    pub open spec fn got(self, at: u64, data: Seq<u8>) -> (LinkState, IncomingView) {
        let heard = LinkState { last_any: at, ..self };
        if self.is_control(data) {
            let number = one_more(self.control_acks);
            (
                LinkState { control_acks: number, last_control: Some(at), ..heard },
                IncomingView::Control { ack: ack_bytes(data), number },
            )
        } else {
            match packet_type_spec(data, self.session) {
                None => (heard, IncomingView::Foreign),
                Some(kind) => if kind == TYPE_VIDEO {
                    self.got_video(at, data)
                } else {
                    (heard, IncomingView::Other(kind))
                },
            }
        }
    }

    /// Since when the video counts as quiet: the last unit, or the first video
    /// packet if there is no unit yet. Before any video there is nothing to be
    /// quiet.
    pub open spec fn quiet_since(self) -> Option<u64> {
        if self.last_video is Some {
            self.last_video
        } else {
            self.first_video
        }
    }

    /// There has been video, and no unit has been completed for as long as
    /// counts as quiet.
    pub open spec fn video_quiet(self, now: u64) -> bool {
        match self.quiet_since() {
            None => false,
            Some(t) => elapsed(now, t) >= VIDEO_QUIET_MS * MILLI,
        }
    }

    /// A control packet has come more recently than that.
    pub open spec fn control_alive(self, now: u64) -> bool {
        match self.last_control {
            None => false,
            Some(t) => elapsed(now, t) < VIDEO_QUIET_MS * MILLI,
        }
    }

    /// How the link is doing at time `now`.
    pub open spec fn checked(self, now: u64) -> (LinkState, Liveness) {
        let quiet = elapsed(now, self.last_any);
        if quiet >= SESSION_QUIET_MS * MILLI {
            (self, Liveness::Dead((quiet / MILLI as int) as u64))
        } else if !self.video_stalled && self.video_quiet(now) && self.control_alive(now) {
            (LinkState { video_stalled: true, ..self }, Liveness::VideoQuiet)
        } else {
            (self, Liveness::Fine)
        }
    }
}

/// The time from `earlier` to `later`.
fn since(later: u64, earlier: u64) -> (d: u64)
    ensures
        d == elapsed(later, earlier),
{
    later.saturating_sub(earlier)
}

/// The live link. Times are in nanoseconds on one clock that never goes back.
pub struct Link {
    session: u16,
    assembler: Assembler,
    first_video: Option<u64>,
    control_acks: u64,
    units_written: u64,
    last_any: u64,
    last_control: Option<u64>,
    last_video: Option<u64>,
    video_stalled: bool,
}

impl View for Link {
    type V = LinkState;

    closed spec fn view(&self) -> LinkState {
        LinkState {
            session: self.session,
            assembly: self.assembler@,
            first_video: self.first_video,
            control_acks: self.control_acks,
            units_written: self.units_written,
            last_any: self.last_any,
            last_control: self.last_control,
            last_video: self.last_video,
            video_stalled: self.video_stalled,
        }
    }
}

impl Link {
    pub closed spec fn wf(self) -> bool {
        self.assembler.wf()
    }

    /// A session that has just been opened.
    pub fn new(session: u16, now: u64) -> (link: Link)
        ensures
            link.wf(),
            link@ == LinkState::start(session, now),
    {
        Link {
            session,
            assembler: Assembler::new(),
            first_video: None,
            control_acks: 0,
            units_written: 0,
            last_any: now,
            last_control: None,
            last_video: None,
            video_stalled: false,
        }
    }

    /// How many control packets have been acknowledged; the count stops at the
    /// largest number it can hold.
    pub fn control_acks(&self) -> (n: u64)
        ensures
            n == self@.control_acks,
    {
        self.control_acks
    }

    /// How many units have been completed; the count stops at the largest
    /// number it can hold.
    pub fn units_written(&self) -> (n: u64)
        ensures
            n == self@.units_written,
    {
        self.units_written
    }

    /// How many units were dropped because a part never arrived.
    pub fn dropped_partial(&self) -> (n: u64)
        ensures
            n == self@.assembly.dropped,
    {
        self.assembler.dropped_partial()
    }

    /// Take in a datagram that came at time `at`.
    pub fn receive(&mut self, at: u64, data: &[u8]) -> (incoming: Incoming)
        requires
            old(self).wf(),
        ensures
            final(self).wf(),
            (final(self)@, incoming@) == old(self)@.got(at, data@),
    {
        self.last_any = at;
        // Upstream control packets must be acknowledged or the goggles stall.
        if let Some(ack) = build_control_ack(data, self.session) {
            self.control_acks = self.control_acks.saturating_add(1);
            self.last_control = Some(at);
            return Incoming::Control { ack, number: self.control_acks };
        }
        match packet_type(data, self.session) {
            None => Incoming::Foreign,
            Some(kind) => {
                if kind != TYPE_VIDEO {
                    return Incoming::Other(kind);
                }
                let first: bool = self.first_video.is_none();
                if first {
                    self.first_video = Some(at);
                }
                let unit: Option<VideoUnit> = match parse_fragment(data) {
                    None => None,
                    Some(fragment) => match self.assembler.feed(&fragment) {
                        None => None,
                        Some(bytes) => {
                            self.last_video = Some(at);
                            let resumed: bool = self.video_stalled;
                            self.video_stalled = false;
                            self.units_written = self.units_written.saturating_add(1);
                            Some(VideoUnit { bytes, number: self.units_written, resumed })
                        },
                    },
                };
                Incoming::Video { first, unit }
            },
        }
    }

    /// Look after the link at time `now`, whether or not something just came.
    pub fn check(&mut self, now: u64) -> (liveness: Liveness)
        requires
            old(self).wf(),
        ensures
            final(self).wf(),
            (final(self)@, liveness) == old(self)@.checked(now),
    {
        let quiet: u64 = since(now, self.last_any);
        if quiet >= SESSION_QUIET_MS * MILLI {
            return Liveness::Dead(quiet / MILLI);
        }
        if !self.video_stalled {
            let since_when: Option<u64> = match self.last_video {
                Some(t) => Some(t),
                None => self.first_video,
            };
            let video_quiet: bool = match since_when {
                None => false,
                Some(t) => since(now, t) >= VIDEO_QUIET_MS * MILLI,
            };
            let control_alive: bool = match self.last_control {
                None => false,
                Some(t) => since(now, t) < VIDEO_QUIET_MS * MILLI,
            };
            if video_quiet && control_alive {
                self.video_stalled = true;
                return Liveness::VideoQuiet;
            }
        }
        Liveness::Fine
    }
}

/// Every control packet of the session that is long enough to be echoed is
/// acknowledged, whatever the state of the link.
pub proof fn law_control_is_acknowledged(s: LinkState, at: u64, data: Seq<u8>)
    requires
        packet_type_spec(data, s.session) == Some(TYPE_CONTROL),
        data.len() >= ACK_LEN,
    ensures
        s.got(at, data).1 matches IncomingView::Control { ack, .. } && ack == ack_bytes(data),
        s.got(at, data).0.assembly == s.assembly,
{
}

/// A datagram that is not a valid packet of the session changes nothing but
/// the time at which something was last heard.
pub proof fn law_foreign_changes_nothing(s: LinkState, at: u64, data: Seq<u8>)
    requires
        packet_type_spec(data, s.session) is None,
    ensures
        s.got(at, data) == (LinkState { last_any: at, ..s }, IncomingView::Foreign),
{
}

/// The link is dead exactly when nothing at all has come for ten seconds.
/// Quiet video alone is never fatal.
pub proof fn law_only_silence_is_fatal(s: LinkState, now: u64)
    ensures
        s.checked(now).1 is Dead <==> elapsed(now, s.last_any) >= SESSION_QUIET_MS * MILLI,
{
}

/// Quiet video is reported only when it has been quiet for 2.5 seconds: for so
/// long no unit has been completed, or, if there is no unit yet, so long ago the
/// first video packet came. And control is alive.
pub proof fn law_quiet_video_takes_time(s: LinkState, now: u64)
    requires
        s.checked(now).1 is VideoQuiet,
    ensures
        s.control_alive(now),
        s.last_video matches Some(t) ==> elapsed(now, t) >= VIDEO_QUIET_MS * MILLI,
        s.last_video is None ==> (s.first_video matches Some(t) && elapsed(now, t)
            >= VIDEO_QUIET_MS * MILLI),
{
}

/// Right after the first video packet of a session, and right after one that
/// completed a unit, the video is not reported quiet.
pub proof fn law_fresh_video_is_not_quiet(s: LinkState, at: u64, data: Seq<u8>)
    requires
        s.got(at, data).1 matches IncomingView::Video { first, unit } && (unit is Some || (first
            && s.last_video is None)),
    ensures
        !(s.got(at, data).0.checked(at).1 is VideoQuiet),
{
}

/// One step in the life of a link.
pub enum LinkEvent {
    Got { at: u64, data: Seq<u8> },
    Checked { now: u64 },
}

/// The link after some steps.
pub open spec fn after_events(s: LinkState, events: Seq<LinkEvent>) -> LinkState
    decreases events.len(),
{
    if events.len() == 0 {
        s
    } else {
        let mid = after_events(s, events.drop_last());
        match events.last() {
            LinkEvent::Got { at, data } => mid.got(at, data).0,
            LinkEvent::Checked { now } => mid.checked(now).0,
        }
    }
}

/// Quiet video is reported once: after the report, however the link goes on,
/// it is not reported again until another unit has been completed.
pub proof fn law_quiet_video_is_reported_once(
    s: LinkState,
    first: u64,
    events: Seq<LinkEvent>,
    now: u64,
)
    requires
        s.checked(first).1 is VideoQuiet,
        after_events(s.checked(first).0, events).units_written == s.units_written,
        s.units_written < u64::MAX,
    ensures
        !(after_events(s.checked(first).0, events).checked(now).1 is VideoQuiet),
{
    lemma_stalled_until_unit(s.checked(first).0, events);
}

/// Units are only ever added, and the stall is over only once one was.
proof fn lemma_stalled_until_unit(s: LinkState, events: Seq<LinkEvent>)
    requires
        s.video_stalled,
        s.units_written < u64::MAX,
    ensures
        ({
            let end = after_events(s, events);
            &&& end.units_written >= s.units_written
            &&& end.units_written == s.units_written ==> end.video_stalled
        }),
    decreases events.len(),
{
    if events.len() > 0 {
        lemma_stalled_until_unit(s, events.drop_last());
    }
}

/// What ends a run: a probe once the session is open, a write that failed, a
/// dead link, and a stop; only a probe and a stop are a success.
pub proof fn law_how_a_run_ends(stop: bool, l: Liveness, e: Errno, ms: u64, end: LinkEnd)
    ensures
        end_on_open(true) == Some(LinkEnd::Probed) && end_on_open(false) is None,
        end_on_write(Ok(())) is None && end_on_write(Err(e)) == Some(LinkEnd::SinkFailed(e)),
        end_on_check(stop, Liveness::Dead(ms)) == Some(LinkEnd::Dead(ms)),
        !(l is Dead) ==> end_on_check(true, l) == Some(LinkEnd::Stopped) && end_on_check(
            false,
            l,
        ) is None,
        end.spec_exit_code() == 0 <==> end is Probed || end is Stopped,
        end.spec_exit_code() == 1 <==> end is SinkFailed || end is Dead,
{
}

/// Each datagram is taken by its type: 1 is control if there is enough of it to
/// acknowledge, 2 is video, and any other is passed over. Whatever it is,
/// something was heard.
pub proof fn law_datagrams_by_type(s: LinkState, at: u64, data: Seq<u8>)
    ensures
        ({
            let (t, incoming) = s.got(at, data);
            let kind = packet_type_spec(data, s.session);
            let control = kind == Some(1u8) && data.len() >= 34;
            &&& t.last_any == at && t.session == s.session
            &&& incoming is Control <==> control
            &&& incoming is Video <==> kind == Some(2u8)
            &&& incoming is Foreign <==> kind is None
            &&& incoming is Other ==> kind == Some(incoming->Other_0)
            &&& incoming is Control ==> t.last_control == Some(at)
            &&& !(incoming is Control) ==> t.last_control == s.last_control && t.control_acks
                == s.control_acks
            &&& !(incoming is Video) ==> t == (LinkState {
                last_any: at,
                last_control: t.last_control,
                control_acks: t.control_acks,
                ..s
            })
        }),
{
}

/// Acknowledged control packets and completed units are counted from one, up to
/// the largest number there is.
pub proof fn law_packets_are_counted(s: LinkState, at: u64, data: Seq<u8>)
    ensures
        ({
            let (t, incoming) = s.got(at, data);
            &&& incoming matches IncomingView::Control { ack, number } ==> number == t.control_acks
                && (s.control_acks < 0xffff_ffff_ffff_ffff ==> number == s.control_acks + 1) && (
            s.control_acks == 0xffff_ffff_ffff_ffff ==> number == s.control_acks)
            &&& match incoming {
                IncomingView::Video { first, unit: Some(unit) } => unit.number == t.units_written && (
                s.units_written < 0xffff_ffff_ffff_ffff ==> unit.number == s.units_written + 1) && (
                s.units_written == 0xffff_ffff_ffff_ffff ==> unit.number == s.units_written),
                _ => t.units_written == s.units_written,
            }
        }),
{
}

/// Every video packet with a whole header goes to the assembler, and what comes
/// out of it is handed on as it is. A unit ends a stall, and is told apart if
/// it does; the first video packet of a session is told apart too.
pub proof fn law_video_goes_through_the_assembler(s: LinkState, at: u64, data: Seq<u8>)
    requires
        packet_type_spec(data, s.session) == Some(2u8),
    ensures
        ({
            let (t, incoming) = s.got(at, data);
            let (assembly, out) = s.assembly.fed(fragment_of(data));
            &&& incoming is Video
            &&& incoming->first == (s.first_video is None)
            &&& t.first_video == if s.first_video is None {
                Some(at)
            } else {
                s.first_video
            }
            &&& data.len() >= 20 ==> t.assembly == assembly && (incoming->unit is Some <==> out
                is Some)
            &&& data.len() < 20 ==> t.assembly == s.assembly && incoming->unit is None
            &&& incoming->unit matches Some(unit) ==> out == Some(unit.bytes) && unit.resumed
                == s.video_stalled && t.last_video == Some(at) && !t.video_stalled
            &&& incoming->unit is None ==> t.last_video == s.last_video && t.video_stalled
                == s.video_stalled
        }),
{
}

/// How the link is doing, by the clock: dead after ten seconds without anything;
/// else quiet video is reported if it was not before, there has been video, but
/// none for two and a half seconds, and control within that time.
pub proof fn law_liveness_by_the_clock(s: LinkState, now: u64)
    ensures
        ({
            let (t, liveness) = s.checked(now);
            let since_any = now - s.last_any;
            let dead = since_any >= 10_000_000_000;
            let video = if s.last_video is Some {
                s.last_video
            } else {
                s.first_video
            };
            let quiet = video is Some && now - video->0 >= 2_500_000_000;
            let control = s.last_control is Some && now - s.last_control->0 < 2_500_000_000;
            &&& liveness is Dead <==> dead
            &&& dead ==> liveness == Liveness::Dead((since_any / 1_000_000) as u64) && t == s
            &&& liveness is VideoQuiet <==> !dead && !s.video_stalled && quiet && control
            &&& t == (LinkState { video_stalled: s.video_stalled || liveness is VideoQuiet, ..s })
        }),
{
}

/// A session starts with nothing heard, nothing counted and nothing amiss.
pub proof fn law_link_starts_clean(session: u16, now: u64)
    ensures
        ({
            let s = LinkState::start(session, now);
            &&& s.session == session && s.last_any == now
            &&& s.first_video is None && s.last_video is None && s.last_control is None
            &&& s.control_acks == 0 && s.units_written == 0 && !s.video_stalled
            &&& s.checked(now).1 is Fine
        }),
{
}

} // verus!
