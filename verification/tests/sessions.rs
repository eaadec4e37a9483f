use orbit_rs::capture::session::{
    Command, Observed, Phase, Supervisor, TransferFault, FAILURE_PAUSE, MAX_CONSECUTIVE_FAILURES,
    SETTLE_DELAY, STREAM_POLL, WAIT_POLL,
};
use orbit_rs::capture::Session;
use orbit_rs::common::Errno;

fn idle() -> Observed {
    Observed { stop: false, enabled: true, endpoints_open: true, session: Session::new() }
}

fn failed_session(s: &mut Supervisor) -> Command {
    assert_eq!(s.step(idle()), Command::OpenEndpoints(SETTLE_DELAY));
    let session = match s.step(Observed { endpoints_open: false, ..idle() }) {
        Command::FailOpen(session) => session,
        _ => panic!("the endpoints are not open"),
    };
    s.step(Observed { session, ..idle() })
}

#[test]
fn an_endpoint_that_went_away_is_a_normal_end() {
    for e in [Errno::Shutdown, Errno::NoDevice] {
        let mut s = Session::new();
        assert_eq!(s.endpoint_error(e), TransferFault::Ended);
        assert_eq!(s, Session { over: true, failed: false, sink_closed: false, streamed: false });
    }
}

#[test]
fn any_other_endpoint_error_is_a_failure() {
    let mut s = Session::new();
    assert_eq!(s.endpoint_error(Errno::Other(5)), TransferFault::Failed(Errno::Other(5)));
    assert_eq!(s, Session { over: true, failed: true, sink_closed: false, streamed: false });
}

#[test]
fn transient_transfer_errors_are_retried() {
    let mut s = Session::new();
    assert_eq!(s.transfer_error(Errno::Interrupted), TransferFault::Retry);
    assert_eq!(s.transfer_error(Errno::Again), TransferFault::Retry);
    assert_eq!(s, Session::new());
    assert_eq!(s.transfer_error(Errno::NoDevice), TransferFault::Ended);
    assert!(s.over);
}

#[test]
fn a_consumer_that_went_away_closes_the_sink() {
    let mut s = Session::new();
    s.output_error(Errno::Other(32));
    assert_eq!(s, Session { over: true, failed: false, sink_closed: true, streamed: false });
}

#[test]
fn an_interrupted_output_only_ends_the_session() {
    let mut s = Session::new();
    s.output_error(Errno::Interrupted);
    assert_eq!(s, Session { over: true, failed: false, sink_closed: false, streamed: false });
}

#[test]
fn endpoints_that_cannot_be_opened_make_a_failed_session() {
    let mut s = Supervisor { phase: Phase::Opening, failures: 2 };
    let unopened = Session { over: true, failed: true, sink_closed: false, streamed: false };
    assert_eq!(Session::unopened(), unopened);
    assert_eq!(
        s.step(Observed { endpoints_open: false, ..idle() }),
        Command::FailOpen(unopened)
    );
    assert_eq!(s.step(Observed { session: unopened, ..idle() }), Command::Sleep(FAILURE_PAUSE));
    assert_eq!(s, Supervisor { phase: Phase::Waiting, failures: 3 });
}

#[test]
fn waiting_for_the_host() {
    let mut s = Supervisor::new();
    assert_eq!(s.step(Observed { enabled: false, ..idle() }), Command::Sleep(WAIT_POLL));
    assert_eq!(s.phase, Phase::Waiting);
    assert_eq!(WAIT_POLL, 100_000);
}

#[test]
fn one_plug_in() {
    let mut s = Supervisor::new();
    assert_eq!(s.step(idle()), Command::OpenEndpoints(200_000));
    assert_eq!(s.step(idle()), Command::StartWorkers);
    assert_eq!(s.step(idle()), Command::Sleep(STREAM_POLL));
    assert_eq!(s.step(Observed { enabled: false, ..idle() }), Command::StopWorkers);
    assert_eq!(s.step(idle()), Command::Rearm);
    assert_eq!(s, Supervisor::new());
}

#[test]
fn a_session_that_is_over_is_closed() {
    let mut s = Supervisor { phase: Phase::Streaming, failures: 0 };
    let mut session = Session::new();
    session.end();
    assert_eq!(s.step(Observed { session, ..idle() }), Command::StopWorkers);
}

#[test]
fn a_stop_signal_ends_the_run() {
    let mut s = Supervisor { phase: Phase::Streaming, failures: 0 };
    let stop = Observed { stop: true, ..idle() };
    assert_eq!(s.step(stop), Command::StopWorkers);
    assert_eq!(s.step(stop), Command::Rearm);
    assert_eq!(s.step(stop), Command::Stopped);
    assert_eq!(Command::Stopped.exit_code(), Some(0));
}

#[test]
fn a_closed_sink_ends_the_run() {
    let mut s = Supervisor { phase: Phase::Closed, failures: 0 };
    let mut session = Session::new();
    session.output_error(Errno::Other(32));
    assert_eq!(s.step(Observed { session, ..idle() }), Command::SinkGone);
    assert_eq!(Command::SinkGone.exit_code(), Some(1));
}

#[test]
fn five_failed_sessions_in_a_row_are_enough() {
    let mut s = Supervisor::new();
    for _ in 1..MAX_CONSECUTIVE_FAILURES {
        assert_eq!(failed_session(&mut s), Command::Sleep(FAILURE_PAUSE));
    }
    assert_eq!(failed_session(&mut s), Command::GiveUp);
    assert_eq!(Command::GiveUp.exit_code(), Some(1));
    assert_eq!(MAX_CONSECUTIVE_FAILURES, 5);
}

#[test]
fn a_session_that_streamed_before_it_failed_does_not_count() {
    let mut s = Supervisor::new();
    for _ in 1..MAX_CONSECUTIVE_FAILURES {
        failed_session(&mut s);
    }
    assert_eq!(s.step(idle()), Command::OpenEndpoints(SETTLE_DELAY));
    assert_eq!(s.step(idle()), Command::StartWorkers);
    let mut session = Session::new();
    session.stream();
    assert_eq!(session, Session { over: false, failed: false, sink_closed: false, streamed: true });
    session.fail();
    assert_eq!(s.step(Observed { session, ..idle() }), Command::StopWorkers);
    assert_eq!(s.step(Observed { session, ..idle() }), Command::Sleep(FAILURE_PAUSE));
    assert_eq!(s.failures, 0);
    assert_eq!(failed_session(&mut s), Command::Sleep(FAILURE_PAUSE));
}

#[test]
fn a_good_session_clears_the_failures() {
    let mut s = Supervisor::new();
    for _ in 1..MAX_CONSECUTIVE_FAILURES {
        failed_session(&mut s);
    }
    s.step(idle());
    s.step(idle());
    s.step(Observed { enabled: false, ..idle() });
    assert_eq!(s.step(idle()), Command::Rearm);
    assert_eq!(s.failures, 0);
    assert_eq!(failed_session(&mut s), Command::Sleep(500_000));
}

#[test]
fn only_three_commands_leave() {
    for c in [
        Command::Sleep(1),
        Command::OpenEndpoints(1),
        Command::FailOpen(Session::new()),
        Command::StartWorkers,
        Command::StopWorkers,
        Command::Rearm,
    ] {
        assert_eq!(c.exit_code(), None);
    }
}
