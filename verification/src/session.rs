//! Sessions: logical, possibly-reliable channels between two peers over an
//! underlying link, and the manager that creates them.
//!
//! A session owns the send-side decisions and the receive-side dispatch; the
//! link I/O itself stays outside. Sending is split in two steps that a
//! driver loop performs: `handle_message` turns a message into the frame to
//! hand to the link (or refuses, once the session is closed), and
//! `confirm_send` folds the link's verdict back into the session. A
//! reliable send therefore reports success only after the link has accepted
//! the bytes, and a broken link surfaces as `LinkClosed` rather than a
//! silent drop.
//!
//! Inbound, `dispatch_frame` decodes one frame and hands the typed message
//! to the bound handler; the ghost `delivered` log records the dispatch
//! order, so the handler observes frames exactly in arrival order. A decode
//! failure is fatal to the session: there is no resynchronization marker,
//! so one corrupt frame invalidates the rest of the stream.

use vstd::prelude::*;

use crate::error::{ConnectError, DecodeError, SendError};
use crate::query::{query_dec, query_enc, Query, QueryModel};
use crate::zint::ZInt;

verus! {

/// An opaque variable-length byte identifier, unique per peer for the
/// lifetime of a session.
#[derive(Debug, Clone, PartialEq, Eq)]
pub struct PeerId {
    pub id: Vec<u8>,
}

impl View for PeerId {
    type V = Seq<u8>;

    open spec fn view(&self) -> Seq<u8> {
        self.id@
    }
}

/// The role a peer declares to its neighbours.
#[derive(Debug, Clone, Copy, PartialEq, Eq, Structural)]
pub enum WhatAmI {
    Router,
    Peer,
    Client,
}

/// The link layer's verdict on one frame handed to it: accepted onto the
/// wire, dropped under congestion, or the link is down. A reliable link
/// write never reports `Dropped`: it blocks until the bytes are accepted
/// or the link fails.
#[derive(Debug, Clone, Copy, PartialEq, Eq, Structural)]
pub enum LinkOutcome {
    Accepted,
    Dropped,
    LinkDown,
}

/// The application-supplied sink bound 1:1 to a session for the session's
/// lifetime: it receives every inbound message in arrival order, and one
/// closing notification when the session dies.
pub trait SessionEventHandler {
    fn handle_message(&mut self, msg: Query);

    fn closing(&mut self);
}

/// An event handler that discards everything it is given.
#[derive(Debug, Clone, PartialEq, Eq)]
pub struct DummyHandler {}

impl DummyHandler {
    pub fn new() -> (r: DummyHandler)
        ensures
            r == (DummyHandler {  }),
    {
        DummyHandler {  }
    }
}

impl SessionEventHandler for DummyHandler {
    fn handle_message(&mut self, msg: Query) {
    }

    fn closing(&mut self) {
    }
}

/// The application-supplied factory that binds an event handler to each new
/// session, inbound or outbound, before any message is dispatched to it.
pub trait SessionHandler<E: SessionEventHandler> {
    fn new_session(&self, peer: &PeerId) -> Result<E, ConnectError>;
}

/// A session handler that binds a [`DummyHandler`] to every session.
#[derive(Debug, Clone, PartialEq, Eq)]
pub struct MySH {}

impl MySH {
    pub fn new() -> (r: MySH)
        ensures
            r == (MySH {  }),
    {
        MySH {  }
    }
}

impl SessionHandler<DummyHandler> for MySH {
    /// Never errors: every session gets a fresh discarding handler.
    fn new_session(&self, peer: &PeerId) -> (r: Result<DummyHandler, ConnectError>)
        ensures
            r == Ok::<DummyHandler, ConnectError>(DummyHandler {  }),
    {
        Ok(DummyHandler::new())
    }
}

/// A live handle bound to exactly one remote peer over one underlying link.
///
/// The session owns its event handler for its entire lifetime: the 1:1
/// binding is made once, at construction, and every inbound dispatch goes
/// to that handler and no other. `delivered` is the ghost log of every
/// message dispatched to it, in arrival order. `outstanding` holds the ids
/// of the queries issued and not yet settled; no two of them are ever
/// equal.
pub struct Session<E: SessionEventHandler> {
    pub link_open: bool,
    pub next_qid: ZInt,
    pub outstanding: Vec<ZInt>,
    pub complete_capability: bool,
    pub peer: PeerId,
    pub handler: E,
    pub delivered: Ghost<Seq<QueryModel>>,
}

/// Pairwise distinctness of a sequence of query ids.
pub open spec fn qids_distinct(s: Seq<ZInt>) -> bool {
    forall|i: int, j: int| 0 <= i < j < s.len() ==> s[i] != s[j]
}

/// Every id of `s` lies strictly below `bound`.
pub open spec fn qids_below(s: Seq<ZInt>, bound: ZInt) -> bool {
    forall|i: int| 0 <= i < s.len() ==> #[trigger] s[i] < bound
}

impl<E: SessionEventHandler> Session<E> {
    /// The session invariant: outstanding query ids are pairwise distinct,
    /// and all below the next id to be issued.
    pub open spec fn wf(self) -> bool {
        &&& qids_distinct(self.outstanding@)
        &&& qids_below(self.outstanding@, self.next_qid)
    }

    /// Whether the underlying link is still open.
    pub open spec fn is_open(self) -> bool {
        self.link_open
    }

    /// A fresh open session bound to `peer` and to `handler`, its one
    /// dispatch target from now until the session dies; nothing delivered,
    /// no outstanding query, ids starting at zero.
    pub fn new(peer: PeerId, complete_capability: bool, handler: E) -> (s: Session<E>)
        ensures
            s.wf(),
            s.is_open(),
            s.next_qid == 0,
            s.outstanding@ == Seq::<ZInt>::empty(),
            s.complete_capability == complete_capability,
            s.peer@ == peer@,
            s.handler == handler,
            s.delivered@ == Seq::<QueryModel>::empty(),
    {
        let s = Session {
            link_open: true,
            next_qid: 0,
            outstanding: Vec::new(),
            complete_capability,
            peer,
            handler,
            delivered: Ghost(Seq::empty()),
        };
        s
    }

    /// Serializes `msg` into the frame to hand to the link, or refuses with
    /// `LinkClosed` exactly when the session is no longer open. Success of
    /// the send itself is reported by `confirm_send`, once the link has
    /// spoken.
    pub fn handle_message(&self, msg: &Query) -> (r: Result<Vec<u8>, SendError>)
        requires
            msg@.admissible(self.complete_capability),
        ensures
            match r {
                Ok(frame) => self.is_open() && frame@ == query_enc(msg@),
                Err(e) => e == SendError::LinkClosed && !self.is_open(),
            },
    {
        if !self.link_open {
            return Err(SendError::LinkClosed);
        }
        match msg.encode(self.complete_capability) {
            Ok(frame) => Ok(frame),
            Err(_) => {
                proof {
                    assert(false);
                }
                Err(SendError::LinkClosed)
            },
        }
    }

    /// Folds the link's verdict on one sent frame back into the session:
    /// acceptance is success; a congestion drop is silent success for a
    /// best-effort message (a reliable link write never reports it); a dead
    /// link closes the session and surfaces as `LinkClosed`.
    pub fn confirm_send(&mut self, reliable: bool, outcome: LinkOutcome) -> (r: Result<
        (),
        SendError,
    >)
        requires
            reliable ==> outcome != LinkOutcome::Dropped,
        ensures
            outcome != LinkOutcome::LinkDown ==> r == Ok::<(), SendError>(()) && *final(self)
                == *old(self),
            outcome == LinkOutcome::LinkDown ==> {
                &&& r == Err::<(), SendError>(SendError::LinkClosed)
                &&& !final(self).is_open()
                &&& final(self).next_qid == old(self).next_qid
                &&& final(self).outstanding@ == old(self).outstanding@
                &&& final(self).complete_capability == old(self).complete_capability
                &&& final(self).peer@ == old(self).peer@
                &&& final(self).handler == old(self).handler
                &&& final(self).delivered@ == old(self).delivered@
            },
            old(self).wf() ==> final(self).wf(),
    {
        match outcome {
            LinkOutcome::Accepted => Ok(()),
            LinkOutcome::Dropped => Ok(()),
            LinkOutcome::LinkDown => {
                self.link_open = false;
                Err(SendError::LinkClosed)
            },
        }
    }

    /// Closes the session: no further send is accepted. Closing is
    /// idempotent — on an already-closed session it changes nothing — and
    /// it never invokes the handler.
    pub fn close(&mut self)
        ensures
            !final(self).is_open(),
            final(self).next_qid == old(self).next_qid,
            final(self).outstanding@ == old(self).outstanding@,
            final(self).complete_capability == old(self).complete_capability,
            final(self).peer@ == old(self).peer@,
            final(self).handler == old(self).handler,
            final(self).delivered@ == old(self).delivered@,
            !old(self).is_open() ==> *final(self) == *old(self),
            old(self).wf() ==> final(self).wf(),
    {
        self.link_open = false;
    }

    /// Issues a fresh query id: one no outstanding query of this session
    /// shares, which replies will be correlated by. `None` only when the id
    /// space is exhausted.
    pub fn issue_qid(&mut self) -> (r: Option<ZInt>)
        requires
            old(self).wf(),
        ensures
            final(self).wf(),
            final(self).link_open == old(self).link_open,
            final(self).complete_capability == old(self).complete_capability,
            final(self).peer@ == old(self).peer@,
            final(self).handler == old(self).handler,
            final(self).delivered@ == old(self).delivered@,
            match r {
                Some(q) => {
                    &&& q == old(self).next_qid
                    &&& !old(self).outstanding@.contains(q)
                    &&& final(self).outstanding@ == old(self).outstanding@.push(q)
                    &&& final(self).next_qid == old(self).next_qid + 1
                },
                None => old(self).next_qid == u64::MAX && *final(self) == *old(self),
            },
    {
        if self.next_qid == u64::MAX {
            return None;
        }
        let q = self.next_qid;
        self.next_qid = self.next_qid + 1;
        self.outstanding.push(q);
        proof {
            let s1 = self.outstanding@;
            let s0 = old(self).outstanding@;
            assert(qids_distinct(s0));
            assert(qids_below(s0, old(self).next_qid));
            assert forall|t: int| 0 <= t < s0.len() implies s0[t] != q by {
                assert(s0[t] < old(self).next_qid);
            }
            assert(!s0.contains(q));
            assert forall|a: int, b: int| 0 <= a < b < s1.len() implies s1[a] != s1[b] by {
                if b < s1.len() - 1 {
                    assert(s1[a] == s0[a] && s1[b] == s0[b]);
                } else {
                    assert(s1[b] == q && s1[a] == s0[a]);
                    assert(s0[a] != q);
                }
            }
            assert(qids_distinct(s1));
            assert forall|t: int| 0 <= t < s1.len() implies #[trigger] s1[t] < self.next_qid by {
                if t < s1.len() - 1 {
                    assert(s1[t] == s0[t]);
                    assert(s0[t] < old(self).next_qid);
                } else {
                    assert(s1[t] == q);
                }
            }
            assert(qids_below(s1, self.next_qid));
        }
        Some(q)
    }

    /// Settles one outstanding query id, once its replies are complete:
    /// removes it from the outstanding set. Reports whether the id was
    /// outstanding at all.
    pub fn settle_qid(&mut self, qid: ZInt) -> (r: bool)
        requires
            old(self).wf(),
        ensures
            final(self).wf(),
            final(self).link_open == old(self).link_open,
            final(self).next_qid == old(self).next_qid,
            final(self).complete_capability == old(self).complete_capability,
            final(self).peer@ == old(self).peer@,
            final(self).handler == old(self).handler,
            final(self).delivered@ == old(self).delivered@,
            r == old(self).outstanding@.contains(qid),
            !r ==> final(self).outstanding@ == old(self).outstanding@,
            r ==> !final(self).outstanding@.contains(qid) && final(self).outstanding@.len() == old(
                self,
            ).outstanding@.len() - 1 && forall|x: ZInt|
                x != qid ==> (final(self).outstanding@.contains(x) == old(
                    self,
                ).outstanding@.contains(x)),
    {
        let olen: usize = self.outstanding.len();
        let mut i: usize = 0;
        while i < olen
            invariant
                old(self).wf(),
                olen == self.outstanding@.len(),
                i <= olen,
                forall|j: int| 0 <= j < i ==> self.outstanding@[j] != qid,
                *self == *old(self),
            decreases olen - i,
        {
            if self.outstanding[i] == qid {
                let ghost s0 = self.outstanding@;
                self.outstanding.remove(i);
                proof {
                    let s1 = self.outstanding@;
                    assert(qids_distinct(s0));
                    assert(qids_below(s0, old(self).next_qid));
                    assert(s0.contains(qid));
                    assert forall|a: int, b: int| 0 <= a < b < s1.len() implies s1[a] != s1[b] by {
                        let a0: int = if a < i { a } else { a + 1 };
                        let b0: int = if b < i { b } else { b + 1 };
                        assert(s1[a] == s0[a0] && s1[b] == s0[b0]);
                        assert(s0[a0] != s0[b0]);
                    }
                    assert(qids_distinct(s1));
                    assert forall|t: int| 0 <= t < s1.len() implies #[trigger] s1[t]
                        < self.next_qid by {
                        let t0: int = if t < i { t } else { t + 1 };
                        assert(s1[t] == s0[t0]);
                        assert(s0[t0] < old(self).next_qid);
                    }
                    assert(qids_below(s1, self.next_qid));
                    assert forall|j: int| 0 <= j < s1.len() implies s1[j] != qid by {
                        let j0: int = if j < i { j } else { j + 1 };
                        assert(s1[j] == s0[j0]);
                        if j0 != i {
                            assert(s0[j0] != s0[i as int]);
                        }
                    }
                    assert(!s1.contains(qid));
                    assert forall|x: ZInt| x != qid implies (s1.contains(x) == s0.contains(
                        x,
                    )) by {
                        if s0.contains(x) {
                            let w = choose|w: int| 0 <= w < s0.len() && s0[w] == x;
                            if w < i {
                                assert(s1[w] == x);
                            } else {
                                assert(w != i);
                                assert(s1[w - 1] == x);
                            }
                        }
                        if s1.contains(x) {
                            let w = choose|w: int| 0 <= w < s1.len() && s1[w] == x;
                            let w0: int = if w < i { w } else { w + 1 };
                            assert(s0[w0] == x);
                        }
                    }
                }
                return true;
            }
            i = i + 1;
        }
        proof {
            if self.outstanding@.contains(qid) {
                let w = choose|w: int| 0 <= w < self.outstanding@.len() && self.outstanding@[w]
                    == qid;
                assert(self.outstanding@[w] != qid);
            }
        }
        false
    }

    /// Decodes one inbound frame and dispatches the typed message to the
    /// one handler this session was bound to at creation; the ghost
    /// `delivered` log is extended by exactly that message, so the handler
    /// observes frames in arrival order. A frame that does not decode is
    /// fatal: the session closes, the handler is told it is closing, and
    /// nothing is delivered.
    pub fn dispatch_frame(&mut self, frame: &[u8]) -> (r: Result<(), DecodeError>)
        requires
            old(self).is_open(),
        ensures
            final(self).next_qid == old(self).next_qid,
            final(self).outstanding@ == old(self).outstanding@,
            final(self).complete_capability == old(self).complete_capability,
            final(self).peer@ == old(self).peer@,
            old(self).wf() ==> final(self).wf(),
            match query_dec(frame@, old(self).complete_capability) {
                Ok(qm) => {
                    &&& r == Ok::<(), DecodeError>(())
                    &&& final(self).is_open()
                    &&& final(self).delivered@ == old(self).delivered@.push(qm)
                },
                Err(e) => {
                    &&& r == Err::<(), DecodeError>(e)
                    &&& !final(self).is_open()
                    &&& final(self).delivered@ == old(self).delivered@
                },
            },
    {
        match Query::decode(frame, self.complete_capability) {
            Ok(q) => {
                let ghost qm = q@;
                self.handler.handle_message(q);
                proof {
                    self.delivered@ = self.delivered@.push(qm);
                }
                Ok(())
            },
            Err(e) => {
                self.link_open = false;
                self.handler.closing();
                Err(e)
            },
        }
    }
}

/// No two outstanding queries of one session share an id: the invariant
/// every session operation preserves, stated on its own.
pub proof fn lemma_outstanding_qids_distinct<E: SessionEventHandler>(s: Session<E>)
    requires
        s.wf(),
    ensures
        forall|i: int, j: int|
            0 <= i < j < s.outstanding@.len() ==> s.outstanding@[i] != s.outstanding@[j],
{
}

/// The process-wide configuration a session manager is built with.
pub struct SessionManagerConfig<H> {
    pub version: ZInt,
    pub whatami: WhatAmI,
    pub id: PeerId,
    pub handler: H,
}

/// Creates outbound sessions, accepts inbound ones, and binds each to an
/// event handler obtained from the configured factory — atomically at
/// session creation, before any message can be dispatched.
pub struct SessionManager<H> {
    pub config: SessionManagerConfig<H>,
}

impl<H> SessionManager<H> {
    pub fn new(config: SessionManagerConfig<H>) -> (m: SessionManager<H>)
        ensures
            m.config == config,
    {
        SessionManager { config }
    }

    /// Opens an outbound session towards `locator`. The link layer resolves
    /// the locator and performs the handshake; its verdict comes in as
    /// `handshake`. A failed handshake is surfaced unchanged and never
    /// retried. On success the new session comes with its freshly obtained
    /// handler already bound inside it: the binding exists before any
    /// dispatch can, and lasts as long as the session.
    pub fn open_session<E: SessionEventHandler>(
        &self,
        locator: &crate::locator::Locator,
        handshake: Result<PeerId, ConnectError>,
        complete_capability: bool,
    ) -> (r: Result<Session<E>, ConnectError>) where H: SessionHandler<E>
        ensures
            match handshake {
                Err(e) => r matches Err(e2) && e2 == e,
                Ok(pid) => match r {
                    Ok(s) => {
                        &&& s.wf()
                        &&& s.is_open()
                        &&& s.next_qid == 0
                        &&& s.outstanding@ == Seq::<ZInt>::empty()
                        &&& s.delivered@ == Seq::<QueryModel>::empty()
                        &&& s.complete_capability == complete_capability
                        &&& s.peer@ == pid@
                    },
                    Err(_) => true,
                },
            },
    {
        let pid = match handshake {
            Ok(pid) => pid,
            Err(e) => {
                return Err(e);
            },
        };
        let handler = match self.config.handler.new_session(&pid) {
            Ok(h) => h,
            Err(e) => {
                return Err(e);
            },
        };
        Ok(Session::new(pid, complete_capability, handler))
    }

    /// Accepts one inbound connection whose handshake the link layer has
    /// already completed, binding a handler into the session exactly as
    /// `open_session` does.
    pub fn accept_session<E: SessionEventHandler>(
        &self,
        peer: PeerId,
        complete_capability: bool,
    ) -> (r: Result<Session<E>, ConnectError>) where H: SessionHandler<E>
        ensures
            match r {
                Ok(s) => {
                    &&& s.wf()
                    &&& s.is_open()
                    &&& s.next_qid == 0
                    &&& s.outstanding@ == Seq::<ZInt>::empty()
                    &&& s.delivered@ == Seq::<QueryModel>::empty()
                    &&& s.complete_capability == complete_capability
                    &&& s.peer@ == peer@
                },
                Err(_) => true,
            },
    {
        let handler = match self.config.handler.new_session(&peer) {
            Ok(h) => h,
            Err(e) => {
                return Err(e);
            },
        };
        Ok(Session::new(peer, complete_capability, handler))
    }
}

} // verus!
