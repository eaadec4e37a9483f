//! One session is one plug-in: what its workers report, and how the main loop
//! goes from one session to the next.
use vstd::prelude::*;

use crate::common::Errno;

verus! {

/// What the two data-flow workers report back to the main thread.
#[derive(Clone, Copy, Debug, PartialEq, Eq, Structural)]
pub struct Session {
    /// A worker ended it; main tears down and starts over.
    pub over: bool,
    /// ...because of an unexpected I/O error.
    pub failed: bool,
    /// ...because nobody reads the video any more.
    pub sink_closed: bool,
    /// Some of its video was passed on.
    pub streamed: bool,
}

/// How a transfer that failed is taken.
#[derive(Clone, Copy, Debug, PartialEq, Eq, Structural)]
pub enum TransferFault {
    /// Carry on as if nothing had happened.
    Retry,
    /// The normal end of a session.
    Ended,
    /// A real error.
    Failed(Errno),
}

impl Session {
    /// Nothing reported yet.
    pub open spec fn fresh() -> Session {
        Session { over: false, failed: false, sink_closed: false, streamed: false }
    }

    /// With some of its video passed on.
    pub open spec fn with_video(self) -> Session {
        Session { streamed: true, ..self }
    }

    /// Over.
    pub open spec fn ended(self) -> Session {
        Session { over: true, ..self }
    }

    /// Over because of an unexpected error.
    pub open spec fn broken(self) -> Session {
        Session { over: true, failed: true, ..self }
    }

    /// Nothing reported yet.
    pub fn new() -> (s: Session)
        ensures
            s == Session::fresh(),
            s == (Session { over: false, failed: false, sink_closed: false, streamed: false }),
    {
        Session { over: false, failed: false, sink_closed: false, streamed: false }
    }

    /// A session whose endpoints could not be opened: it is over, and it failed.
    pub open spec fn spec_unopened() -> Session {
        Session { over: true, failed: true, sink_closed: false, streamed: false }
    }

    /// A session whose endpoints could not be opened.
    pub fn unopened() -> (s: Session)
        ensures
            s == Session::spec_unopened(),
    {
        let mut s = Session::new();
        s.fail();
        s
    }

    /// Some of the session's video was passed on.
    pub fn stream(&mut self)
        ensures
            *final(self) == old(self).with_video(),
            *final(self) == (Session { streamed: true, ..*old(self) }),
    {
        self.streamed = true;
    }

    /// The session is over.
    pub fn end(&mut self)
        ensures
            *final(self) == old(self).ended(),
            *final(self) == (Session { over: true, ..*old(self) }),
    {
        self.over = true;
    }

    /// The session is over because of an unexpected error.
    pub fn fail(&mut self)
        ensures
            *final(self) == old(self).broken(),
            *final(self) == (Session { over: true, failed: true, ..*old(self) }),
    {
        self.failed = true;
        self.over = true;
    }

    /// How an endpoint error is taken. An endpoint that went away is the normal
    /// end of a session -- the host disabled the interface and a DISABLE event
    /// is on its way. Anything else is a real error.
    pub open spec fn spec_endpoint_fault(err: Errno) -> TransferFault {
        if err == Errno::Shutdown || err == Errno::NoDevice {
            TransferFault::Ended
        } else {
            TransferFault::Failed(err)
        }
    }

    /// How a failed command write or video read is taken.
    pub open spec fn spec_transfer_fault(err: Errno) -> TransferFault {
        if err.spec_is_transient() {
            TransferFault::Retry
        } else {
            Session::spec_endpoint_fault(err)
        }
    }

    /// After a command write or a video read that failed.
    pub open spec fn after_transfer_error(self, err: Errno) -> Session {
        if err.spec_is_transient() {
            self
        } else {
            Session {
                over: true,
                failed: self.failed || Session::spec_endpoint_fault(err) is Failed,
                ..self
            }
        }
    }

    /// After the video could not be written.
    pub open spec fn after_output_error(self, err: Errno) -> Session {
        Session { over: true, sink_closed: self.sink_closed || err != Errno::Interrupted, ..self }
    }

    /// Record an endpoint error.
    pub fn endpoint_error(&mut self, err: Errno) -> (fault: TransferFault)
        ensures
            fault == Session::spec_endpoint_fault(err),
            *final(self) == (Session {
                over: true,
                failed: old(self).failed || fault is Failed,
                ..*old(self)
            }),
    {
        match err {
            Errno::Shutdown => {
                self.end();
                TransferFault::Ended
            },
            Errno::NoDevice => {
                self.end();
                TransferFault::Ended
            },
            _ => {
                self.fail();
                TransferFault::Failed(err)
            },
        }
    }

    /// Record how a command write or a video read failed: an interrupted one
    /// is simply retried.
    pub fn transfer_error(&mut self, err: Errno) -> (fault: TransferFault)
        ensures
            fault == Session::spec_transfer_fault(err),
            *final(self) == old(self).after_transfer_error(err),
            if err.spec_is_transient() {
                fault == TransferFault::Retry && *final(self) == *old(self)
            } else {
                &&& fault == Session::spec_endpoint_fault(err)
                &&& *final(self) == (Session {
                    over: true,
                    failed: old(self).failed || fault is Failed,
                    ..*old(self)
                })
            },
    {
        if err.is_transient() {
            TransferFault::Retry
        } else {
            self.endpoint_error(err)
        }
    }

    /// Record that the video could not be written. A consumer that went away
    /// closes the sink; an interruption only means that the worker is asked to
    /// leave. Either way the session is over.
    pub fn output_error(&mut self, err: Errno)
        ensures
            *final(self) == old(self).after_output_error(err),
            *final(self) == (Session {
                over: true,
                sink_closed: old(self).sink_closed || err != Errno::Interrupted,
                ..*old(self)
            }),
    {
        match err {
            Errno::Interrupted => {},
            _ => {
                self.sink_closed = true;
            },
        }
        self.end();
    }
}

/// Sessions that fail back to back without ever streaming: after so many, give
/// up and let the supervisor restart the process, rather than logging the same
/// failure forever.
pub const MAX_CONSECUTIVE_FAILURES: u32 = 5;

/// Where the main loop stands.
#[derive(Clone, Copy, Debug, PartialEq, Eq, Structural)]
pub enum Phase {
    /// Waiting for the host to enable the interface.
    Waiting,
    /// The endpoints are being opened.
    Opening,
    /// The workers are running.
    Streaming,
    /// The workers are stopped and the endpoints closed.
    Closed,
}

/// What the main thread sees at one step.
#[derive(Clone, Copy, Debug, PartialEq, Eq, Structural)]
pub struct Observed {
    /// A stop signal arrived.
    pub stop: bool,
    /// The host has the interface enabled.
    pub enabled: bool,
    /// Both endpoint files are open.
    pub endpoints_open: bool,
    /// What the workers of this session report.
    pub session: Session,
}

/// What the main thread does next.
#[derive(Clone, Copy, Debug, PartialEq, Eq, Structural)]
pub enum Command {
    /// Look again after so many microseconds.
    Sleep(u32),
    /// Wait so many microseconds, start a new session and open the endpoints.
    OpenEndpoints(u32),
    /// Close the endpoints, of which one or both could not be opened; this is
    /// how the session went.
    FailOpen(Session),
    /// Start the workers.
    StartWorkers,
    /// Stop the workers and close the endpoints.
    StopWorkers,
    /// Wait for the next plug-in.
    Rearm,
    /// Stopped by a signal: leave with success.
    Stopped,
    /// Nobody reads the video: leave with failure.
    SinkGone,
    /// Too many failed sessions in a row, none of which streamed: leave with
    /// failure.
    GiveUp,
}

/// How often the main thread looks for the host, in microseconds.
pub const WAIT_POLL: u32 = 100_000;

/// The real receiver waits this long before it opens the endpoints.
pub const SETTLE_DELAY: u32 = 200_000;

/// How often the main thread looks after the workers, in microseconds.
pub const STREAM_POLL: u32 = 50_000;

/// The pause after a failed session, in microseconds.
pub const FAILURE_PAUSE: u32 = 500_000;

impl Command {
    /// The exit code of a command that leaves the loop.
    pub open spec fn spec_exit_code(self) -> Option<i32> {
        match self {
            Command::Stopped => Some(0i32),
            Command::SinkGone => Some(1i32),
            Command::GiveUp => Some(1i32),
            _ => None,
        }
    }

    /// The exit code of a command that leaves the loop.
    pub fn exit_code(self) -> (code: Option<i32>)
        ensures
            code == self.spec_exit_code(),
    {
        match self {
            Command::Stopped => Some(0),
            Command::SinkGone => Some(1),
            Command::GiveUp => Some(1),
            _ => None,
        }
    }
}

/// The main loop: its phase, and how many sessions in a row have failed without
/// ever streaming.
#[derive(Clone, Copy, Debug, PartialEq, Eq, Structural)]
pub struct Supervisor {
    pub phase: Phase,
    pub failures: u32,
}

impl Supervisor {
    /// Fewer failures than make it give up.
    pub open spec fn wf(self) -> bool {
        self.failures < MAX_CONSECUTIVE_FAILURES
    }

    /// The failures in a row after a session. One that streamed ends the row,
    /// even if it failed in the end.
    pub open spec fn failures_after(self, s: Session) -> u32 {
        if s.failed && !s.streamed {
            (self.failures + 1) as u32
        } else {
            0
        }
    }

    /// Waiting for the first plug-in.
    pub open spec fn at_first() -> Supervisor {
        Supervisor { phase: Phase::Waiting, failures: 0 }
    }

    /// One step of the main loop.
    pub open spec fn spec_step(self, o: Observed) -> (Supervisor, Command) {
        match self.phase {
            Phase::Waiting => if o.stop {
                (self, Command::Stopped)
            } else if !o.enabled {
                (self, Command::Sleep(WAIT_POLL))
            } else {
                (
                    Supervisor { phase: Phase::Opening, ..self },
                    Command::OpenEndpoints(SETTLE_DELAY),
                )
            },
            Phase::Opening => if o.endpoints_open {
                (Supervisor { phase: Phase::Streaming, ..self }, Command::StartWorkers)
            } else {
                (
                    Supervisor { phase: Phase::Closed, ..self },
                    Command::FailOpen(Session::spec_unopened()),
                )
            },
            Phase::Streaming => if !o.stop && o.enabled && !o.session.over {
                (self, Command::Sleep(STREAM_POLL))
            } else {
                (Supervisor { phase: Phase::Closed, ..self }, Command::StopWorkers)
            },
            Phase::Closed => if o.session.sink_closed {
                (self, Command::SinkGone)
            } else if self.failures_after(o.session) >= MAX_CONSECUTIVE_FAILURES {
                (self, Command::GiveUp)
            } else {
                (
                    Supervisor {
                        phase: Phase::Waiting,
                        failures: self.failures_after(o.session),
                    },
                    if o.session.failed {
                        Command::Sleep(FAILURE_PAUSE)
                    } else {
                        Command::Rearm
                    },
                )
            },
        }
    }

    /// Waiting for the first plug-in.
    pub fn new() -> (s: Supervisor)
        ensures
            s.wf(),
            s == Supervisor::at_first(),
            s == (Supervisor { phase: Phase::Waiting, failures: 0 }),
    {
        Supervisor { phase: Phase::Waiting, failures: 0 }
    }

    /// One step of the main loop. Each pass is one plug-in: FunctionFS
    /// invalidates the endpoint files when the host disables the interface, so
    /// they are reopened per session.
    pub fn step(&mut self, o: Observed) -> (command: Command)
        requires
            old(self).wf(),
        ensures
            final(self).wf(),
            (*final(self), command) == old(self).spec_step(o),
    {
        match self.phase {
            Phase::Waiting => {
                if o.stop {
                    Command::Stopped
                } else if !o.enabled {
                    Command::Sleep(WAIT_POLL)
                } else {
                    self.phase = Phase::Opening;
                    Command::OpenEndpoints(SETTLE_DELAY)
                }
            },
            Phase::Opening => {
                if o.endpoints_open {
                    self.phase = Phase::Streaming;
                    Command::StartWorkers
                } else {
                    self.phase = Phase::Closed;
                    Command::FailOpen(Session::unopened())
                }
            },
            Phase::Streaming => {
                if !o.stop && o.enabled && !o.session.over {
                    Command::Sleep(STREAM_POLL)
                } else {
                    self.phase = Phase::Closed;
                    Command::StopWorkers
                }
            },
            Phase::Closed => {
                if o.session.sink_closed {
                    return Command::SinkGone;
                }
                let failures: u32 = if o.session.failed && !o.session.streamed {
                    self.failures + 1
                } else {
                    0
                };
                if failures >= MAX_CONSECUTIVE_FAILURES {
                    return Command::GiveUp;
                }
                self.failures = failures;
                self.phase = Phase::Waiting;
                if o.session.failed {
                    Command::Sleep(FAILURE_PAUSE)
                } else {
                    Command::Rearm
                }
            },
        }
    }
}

/// The sessions at the end of a history that failed without ever streaming.
pub open spec fn trailing_failures(history: Seq<Session>) -> nat
    decreases history.len(),
{
    if history.len() == 0 || !history.last().failed || history.last().streamed {
        0
    } else {
        trailing_failures(history.drop_last()) + 1
    }
}

/// What closing the last session of a history leads to, when each session
/// before it was closed in turn from a fresh start: `None` if an earlier one
/// already left the loop.
pub open spec fn closing(history: Seq<Session>) -> Option<(Supervisor, Command)>
    decreases history.len(),
{
    if history.len() == 0 {
        Some((Supervisor { phase: Phase::Closed, failures: 0 }, Command::Rearm))
    } else {
        match closing(history.drop_last()) {
            None => None,
            Some((s, c)) => if c.spec_exit_code() is Some {
                None
            } else {
                let o = Observed {
                    stop: false,
                    enabled: false,
                    endpoints_open: false,
                    session: history.last(),
                };
                Some(Supervisor { phase: Phase::Closed, ..s }.spec_step(o))
            },
        }
    }
}

/// The loop gives up exactly when the last five sessions in a row have failed
/// without ever streaming, and a session that did not fail, or that streamed,
/// wipes the slate: closing a session, whatever came before it, leads to giving
/// up if and only if the failures at the end of the history have reached the
/// limit and the sink is still there.
pub proof fn law_gives_up_after_consecutive_failures(history: Seq<Session>)
    requires
        history.len() > 0,
        closing(history) is Some,
    ensures
        ({
            let (s, c) = closing(history)->0;
            &&& c == Command::SinkGone <==> history.last().sink_closed
            &&& c == Command::GiveUp <==> !history.last().sink_closed && trailing_failures(history)
                >= MAX_CONSECUTIVE_FAILURES
            &&& c.spec_exit_code() is None ==> s.failures == trailing_failures(history)
        }),
    decreases history.len(),
{
    let before = history.drop_last();
    if before.len() > 0 {
        law_gives_up_after_consecutive_failures(before);
        assert(trailing_failures(before) < MAX_CONSECUTIVE_FAILURES);
    } else {
        assert(trailing_failures(before) == 0);
        assert(closing(before) is Some);
    }
}

/// The loop succeeds only when it is told to stop, and it is told to stop only
/// between sessions.
pub proof fn law_success_means_stopped(s: Supervisor, o: Observed)
    ensures
        s.spec_step(o).1.spec_exit_code() == Some(0i32) <==> s.phase == Phase::Waiting && o.stop,
{
}

/// Endpoints that cannot be opened make a failed session: in the step after it,
/// the loop counts one more failure in a row and pauses, or gives up if that is
/// enough.
pub proof fn law_unopened_session_counts(s: Supervisor, o: Observed, next: Observed)
    requires
        s.wf(),
        s.phase == Phase::Opening,
        !o.endpoints_open,
        s.spec_step(o).1 == Command::FailOpen(next.session),
    ensures
        ({
            let (s1, c1) = s.spec_step(o);
            let (s2, c2) = s1.spec_step(next);
            if s.failures + 1 >= MAX_CONSECUTIVE_FAILURES {
                c2 == Command::GiveUp
            } else {
                &&& c2 == Command::Sleep(FAILURE_PAUSE)
                &&& s2.failures == s.failures + 1
                &&& s2.phase == Phase::Waiting
            }
        }),
{
}

/// A stop signal always has somewhere to land: once it is there, the main loop
/// leaves within four steps, whatever else it sees.
pub proof fn law_stop_ends_the_run(
    s: Supervisor,
    o1: Observed,
    o2: Observed,
    o3: Observed,
    o4: Observed,
)
    requires
        s.wf(),
        o1.stop && o2.stop && o3.stop && o4.stop,
    ensures
        ({
            let (s1, c1) = s.spec_step(o1);
            let (s2, c2) = s1.spec_step(o2);
            let (s3, c3) = s2.spec_step(o3);
            let (s4, c4) = s3.spec_step(o4);
            ||| c1.spec_exit_code() is Some
            ||| c2.spec_exit_code() is Some
            ||| c3.spec_exit_code() is Some
            ||| c4.spec_exit_code() is Some
        }),
{
}

/// When nobody reads the video any more, the run is over: the workers are
/// stopped, and the main loop leaves with failure.
pub proof fn law_closed_sink_ends_the_run(s: Supervisor, o: Observed)
    requires
        s.wf(),
        s.phase == Phase::Streaming,
        o.session.over,
        o.session.sink_closed,
    ensures
        ({
            let (s1, c1) = s.spec_step(o);
            let (s2, c2) = s1.spec_step(o);
            &&& c1 == Command::StopWorkers
            &&& c2.spec_exit_code() == Some(1i32)
        }),
{
}

/// How a failed transfer leaves a session: an interrupted one, or one that had
/// nothing to give, leaves it as it was; an endpoint that went away ends it
/// without a failure; anything else ends it with one. What it streamed and what
/// became of the sink is not touched.
pub proof fn law_failed_transfers(s: Session, err: Errno)
    ensures
        ({
            let t = s.after_transfer_error(err);
            &&& err is Interrupted || err is Again ==> t == s
            &&& err is Shutdown || err is NoDevice ==> t.over && t.failed == s.failed
            &&& err is Exists || err is NotFound || err is Other ==> t.over && t.failed
            &&& t.streamed == s.streamed && t.sink_closed == s.sink_closed
            &&& err is Exists || err is NotFound || err is Other ==> Session::spec_endpoint_fault(
                err,
            ) == TransferFault::Failed(err)
            &&& err is Shutdown || err is NoDevice ==> Session::spec_endpoint_fault(
                err,
            ) is Ended
        }),
{
}

/// Video that cannot be written always ends the session, and closes the sink
/// unless the write was only interrupted. The session has not failed by it.
pub proof fn law_failed_output(s: Session, err: Errno)
    ensures
        ({
            let t = s.after_output_error(err);
            &&& t.over
            &&& !(err is Interrupted) ==> t.sink_closed
            &&& err is Interrupted ==> t.sink_closed == s.sink_closed
            &&& t.failed == s.failed && t.streamed == s.streamed
        }),
{
}

/// While it waits, the loop looks for the host ten times a second, and opens the
/// endpoints a fifth of a second after the host has enabled the interface.
pub proof fn law_waits_for_the_host(s: Supervisor, o: Observed)
    requires
        s.phase is Waiting,
        !o.stop,
    ensures
        ({
            let (t, c) = s.spec_step(o);
            &&& t.failures == s.failures
            &&& !o.enabled ==> t.phase is Waiting && c == Command::Sleep(100_000)
            &&& o.enabled ==> t.phase is Opening && c == Command::OpenEndpoints(200_000)
        }),
{
}

/// The workers are started once both endpoints are open, and run until the
/// session is over, the host disables the interface or a stop is asked for;
/// until then the loop looks after them twenty times a second.
pub proof fn law_workers_run_while_they_can(s: Supervisor, o: Observed)
    ensures
        ({
            let (t, c) = s.spec_step(o);
            &&& c is StartWorkers <==> s.phase is Opening && o.endpoints_open
            &&& t.phase is Streaming <==> c is StartWorkers || s.phase is Streaming && !o.stop
                && o.enabled && !o.session.over
            &&& s.phase is Streaming && t.phase is Streaming ==> c == Command::Sleep(50_000)
            &&& s.phase is Streaming && !(t.phase is Streaming) ==> t.phase is Closed
                && c is StopWorkers
            &&& c is StopWorkers ==> s.phase is Streaming
            &&& !(s.phase is Closed) ==> t.failures == s.failures
        }),
{
}

/// After a session the next is waited for: after a pause of half a second if it
/// failed, else at once. Only failures that did not stream add up, and the fifth
/// in a row is the last.
pub proof fn law_after_a_session(s: Supervisor, o: Observed)
    requires
        s.wf(),
        s.phase is Closed,
        !o.session.sink_closed,
    ensures
        ({
            let (t, c) = s.spec_step(o);
            let failed = o.session.failed;
            let lost = failed && !o.session.streamed;
            &&& s.failures <= 4
            &&& c is GiveUp <==> lost && s.failures == 4
            &&& !(c is GiveUp) ==> t.phase is Waiting
            &&& !(c is GiveUp) && failed ==> c == Command::Sleep(500_000)
            &&& !failed ==> c is Rearm
            &&& !(c is GiveUp) && lost ==> t.failures == s.failures + 1
            &&& !lost ==> t.failures == 0
        }),
{
}

/// Only three commands leave the loop, and only a stop is a success.
pub proof fn law_what_leaves_the_loop(c: Command)
    ensures
        c.spec_exit_code() == Some(0i32) <==> c is Stopped,
        c.spec_exit_code() == Some(1i32) <==> c is SinkGone || c is GiveUp,
        c.spec_exit_code() is None <==> !(c is Stopped || c is SinkGone || c is GiveUp),
{
}

/// What the workers report: a session starts with nothing, and each report says
/// one thing and takes nothing back.
pub proof fn law_reports(s: Session)
    ensures
        !Session::fresh().over && !Session::fresh().failed,
        !Session::fresh().sink_closed && !Session::fresh().streamed,
        ({
            let t = s.with_video();
            t.streamed && t.over == s.over && t.failed == s.failed && t.sink_closed == s.sink_closed
        }),
        ({
            let t = s.ended();
            t.over && t.streamed == s.streamed && t.failed == s.failed && t.sink_closed
                == s.sink_closed
        }),
        ({
            let t = s.broken();
            t.over && t.failed && t.streamed == s.streamed && t.sink_closed == s.sink_closed
        }),
        Session::spec_unopened() == Session::fresh().broken(),
{
}

/// Five sessions that fail without streaming, from the start, are the end of it,
/// and four are not: the loop counts from nothing.
pub proof fn law_starts_with_a_clean_record(o: Observed)
    requires
        !o.stop,
    ensures
        Supervisor::at_first().wf(),
        Supervisor::at_first().phase is Waiting,
        Supervisor::at_first().failures == 0,
        Supervisor::at_first().spec_step(o).0.failures == 0,
{
}

/// Endpoints that do not open make a session that is over and has failed, with
/// nothing streamed and the sink still there; it is closed next.
pub proof fn law_endpoints_that_do_not_open(s: Supervisor, o: Observed)
    requires
        s.phase is Opening,
        !o.endpoints_open,
    ensures
        ({
            let (t, c) = s.spec_step(o);
            &&& t.phase is Closed && t.failures == s.failures
            &&& c matches Command::FailOpen(session) && session.over && session.failed
                && !session.streamed && !session.sink_closed
        }),
{
}

/// A sink that is gone ends the run, however the session went.
pub proof fn law_sink_that_is_gone(s: Supervisor, o: Observed)
    requires
        s.phase is Closed,
    ensures
        s.spec_step(o).1 is SinkGone <==> o.session.sink_closed,
{
}

/// How a failed transfer is taken, and that a retry is the only way to leave the
/// session running.
pub proof fn law_transfer_faults(s: Session, err: Errno)
    ensures
        ({
            let fault = Session::spec_transfer_fault(err);
            &&& fault is Retry <==> err is Interrupted || err is Again
            &&& fault is Ended <==> err is Shutdown || err is NoDevice
            &&& fault is Failed <==> err is Exists || err is NotFound || err is Other
            &&& fault matches TransferFault::Failed(e) ==> e == err
            &&& fault is Retry ==> s.after_transfer_error(err) == s
            &&& !(fault is Retry) ==> s.after_transfer_error(err).over
        }),
{
}

} // verus!
