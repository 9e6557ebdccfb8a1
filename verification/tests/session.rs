use zenoh_protocol::error::{ConnectError, DecodeError, SendError};
use zenoh_protocol::keyexpr::WireExpr;
use zenoh_protocol::locator::Locator;
use zenoh_protocol::query::{ConsolidationMode, Query, QueryTarget};
use zenoh_protocol::session::{
    DummyHandler, LinkOutcome, MySH, PeerId, Session, SessionEventHandler, SessionManager,
    SessionManagerConfig, WhatAmI,
};

fn query_with_qid(qid: u64) -> Query {
    Query {
        key: WireExpr { scope: 3, suffix: Vec::new() },
        parameters: Vec::new(),
        qid,
        target: Some(QueryTarget::BestMatching),
        consolidation: ConsolidationMode::Latest,
    }
}

/// Records every message it is handed, and whether it was told the session
/// is closing.
struct RecordingHandler {
    seen_qids: Vec<u64>,
    closing_seen: bool,
}

impl RecordingHandler {
    fn new() -> Self {
        RecordingHandler { seen_qids: Vec::new(), closing_seen: false }
    }
}

impl SessionEventHandler for RecordingHandler {
    fn handle_message(&mut self, msg: Query) {
        self.seen_qids.push(msg.qid);
    }

    fn closing(&mut self) {
        self.closing_seen = true;
    }
}

fn fresh_session() -> Session<DummyHandler> {
    Session::new(PeerId { id: vec![1, 2, 3, 4] }, false, DummyHandler::new())
}

fn recording_session() -> Session<RecordingHandler> {
    Session::new(PeerId { id: vec![1, 2, 3, 4] }, false, RecordingHandler::new())
}

#[test]
fn issued_qids_are_unique() {
    let mut s = fresh_session();
    let mut qids = Vec::new();
    for _ in 0..5 {
        qids.push(s.issue_qid().unwrap());
    }
    for i in 0..qids.len() {
        for j in 0..i {
            assert_ne!(qids[i], qids[j]);
        }
    }
    // Settling one id frees it; ids issued later still collide with nothing
    // outstanding.
    assert!(s.settle_qid(qids[2]));
    let next = s.issue_qid().unwrap();
    for (i, q) in qids.iter().enumerate() {
        if i != 2 {
            assert_ne!(next, *q);
        }
    }
}

#[test]
fn settle_unknown_qid_reports_false() {
    let mut s = fresh_session();
    let q = s.issue_qid().unwrap();
    assert!(!s.settle_qid(q + 99));
    assert!(s.settle_qid(q));
    assert!(!s.settle_qid(q));
}

#[test]
fn frames_are_dispatched_in_arrival_order() {
    let mut s = recording_session();
    for qid in [11, 22, 33] {
        let frame = s.handle_message(&query_with_qid(qid)).unwrap();
        s.dispatch_frame(&frame).unwrap();
    }
    assert_eq!(s.handler.seen_qids, vec![11, 22, 33]);
    assert!(!s.handler.closing_seen);
}

#[test]
fn corrupt_frame_is_fatal_to_the_session() {
    let mut s = recording_session();
    let r = s.dispatch_frame(&[0xff, 0x00]);
    assert_eq!(r, Err(DecodeError::MalformedFrame));
    assert!(s.handler.closing_seen);
    assert!(s.handler.seen_qids.is_empty());
    // The session has closed: further sends are refused at once.
    assert_eq!(
        s.handle_message(&query_with_qid(1)),
        Err(SendError::LinkClosed)
    );
}

#[test]
fn reliable_send_succeeds_only_on_acceptance() {
    let mut s = fresh_session();
    let frame = s.handle_message(&query_with_qid(7)).unwrap();
    assert!(!frame.is_empty());
    assert_eq!(s.confirm_send(true, LinkOutcome::Accepted), Ok(()));
    // The link dies under the next frame: the send errs and the session
    // closes rather than hanging or dropping silently.
    let _frame = s.handle_message(&query_with_qid(8)).unwrap();
    assert_eq!(
        s.confirm_send(true, LinkOutcome::LinkDown),
        Err(SendError::LinkClosed)
    );
    assert_eq!(
        s.handle_message(&query_with_qid(9)),
        Err(SendError::LinkClosed)
    );
}

#[test]
fn unreliable_send_may_drop_without_error() {
    let mut s = fresh_session();
    let _frame = s.handle_message(&query_with_qid(7)).unwrap();
    assert_eq!(s.confirm_send(false, LinkOutcome::Dropped), Ok(()));
}

#[test]
fn closing_an_idle_session_is_quiet_and_idempotent() {
    let mut s = recording_session();
    s.close();
    // No pending sends, closed while idle: the next send is refused
    // immediately, and no handler callback was ever made.
    assert_eq!(
        s.handle_message(&query_with_qid(1)),
        Err(SendError::LinkClosed)
    );
    assert!(s.handler.seen_qids.is_empty());
    assert!(!s.handler.closing_seen);
    // Closing twice is a no-op, not an error.
    s.close();
    assert_eq!(
        s.handle_message(&query_with_qid(2)),
        Err(SendError::LinkClosed)
    );
}

#[test]
fn manager_binds_handler_at_session_creation() {
    let config = SessionManagerConfig {
        version: 0,
        whatami: WhatAmI::Peer,
        id: PeerId { id: vec![0, 0, 0, 1] },
        handler: MySH::new(),
    };
    let manager = SessionManager::new(config);
    let locator = Locator::parse(b"tcp/127.0.0.1:7447").unwrap();
    let mut session: Session<DummyHandler> = manager
        .open_session(&locator, Ok(PeerId { id: vec![9, 9] }), false)
        .unwrap();
    let frame = session.handle_message(&query_with_qid(5)).unwrap();
    session.dispatch_frame(&frame).unwrap();
}

#[test]
fn failed_handshake_is_surfaced_unchanged() {
    let config = SessionManagerConfig {
        version: 0,
        whatami: WhatAmI::Peer,
        id: PeerId { id: vec![0, 0, 0, 1] },
        handler: MySH::new(),
    };
    let manager = SessionManager::new(config);
    let locator = Locator::parse(b"tcp/127.0.0.1:7447").unwrap();
    let r: Result<Session<DummyHandler>, ConnectError> =
        manager.open_session(&locator, Err(ConnectError::LocatorUnreachable), false);
    assert_eq!(r.err(), Some(ConnectError::LocatorUnreachable));
}

#[test]
fn accepted_session_starts_fresh() {
    let config = SessionManagerConfig {
        version: 0,
        whatami: WhatAmI::Peer,
        id: PeerId { id: vec![0, 0, 0, 1] },
        handler: MySH::new(),
    };
    let manager = SessionManager::new(config);
    let mut session: Session<DummyHandler> =
        manager.accept_session(PeerId { id: vec![5] }, false).unwrap();
    assert_eq!(session.issue_qid(), Some(0));
    assert_eq!(session.issue_qid(), Some(1));
}
